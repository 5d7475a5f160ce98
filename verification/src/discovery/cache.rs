//! An index of what was discovered, which collect directives are resolved in.
use vstd::prelude::*;
use vstd::string::*;
use vstd::utf8::encode_utf8;

use crate::discovery::census::Census;
use crate::discovery::container::{AccessMethod, Container, ContainerView, LocalFiles};
use crate::discovery::event_log::EventLogChannel;
use crate::discovery::files::LogFile;
use crate::discovery::systemd::SystemdService;
use crate::order::{key_less, sorted_unique, str_less, SortKey, Sortable};
use crate::strmap::StrMap;
use crate::text::{
    concat, contains, decimal, decimal_of, ends_with, join2, join3, occurs, opt_view, str_eq,
    strings,
};

verus! {

/// How durable a matched key is as the identity of a source. A container id
/// changes on every restart; a service name, a workload id, a path or a unit
/// outlives it.
#[derive(Debug, Clone, Copy, PartialEq, Eq, Structural)]
pub enum Confidence {
    /// The service or workload that the directive named.
    Explicit,
    /// A concrete key that outlives restarts.
    Strong,
    /// A runtime id: valid now, brittle as an identity.
    Weak,
}

impl Confidence {
    pub open spec fn name(self) -> Seq<char> {
        match self {
            Confidence::Explicit => "explicit"@,
            Confidence::Strong => "strong"@,
            Confidence::Weak => "weak"@,
        }
    }

    pub fn as_str(self) -> (r: &'static str)
        ensures
            r@ == self.name(),
    {
        match self {
            Confidence::Explicit => "explicit",
            Confidence::Strong => "strong",
            Confidence::Weak => "weak",
        }
    }
}

/// Which key resolved a directive.
#[derive(Debug, Clone, Copy, PartialEq, Eq, Structural)]
pub enum MatchVia {
    StableInstanceId,
    StableId,
    ServiceName,
    ContainerName,
    ContainerId,
    SystemdUnit,
    FilePath,
    WindowsEventLog,
}

impl MatchVia {
    pub open spec fn name(self) -> Seq<char> {
        match self {
            MatchVia::StableInstanceId => "stable_instance_id"@,
            MatchVia::StableId => "stable_id"@,
            MatchVia::ServiceName => "service_name"@,
            MatchVia::ContainerName => "container_name"@,
            MatchVia::ContainerId => "container_id"@,
            MatchVia::SystemdUnit => "systemd_unit"@,
            MatchVia::FilePath => "file_path"@,
            MatchVia::WindowsEventLog => "windows_event_log"@,
        }
    }

    /// How durable the key is.
    pub open spec fn durability(self) -> Confidence {
        match self {
            MatchVia::StableInstanceId => Confidence::Explicit,
            MatchVia::StableId => Confidence::Explicit,
            MatchVia::ServiceName => Confidence::Explicit,
            MatchVia::ContainerName => Confidence::Strong,
            MatchVia::SystemdUnit => Confidence::Strong,
            MatchVia::FilePath => Confidence::Strong,
            MatchVia::WindowsEventLog => Confidence::Strong,
            MatchVia::ContainerId => Confidence::Weak,
        }
    }

    /// The key's name on the wire.
    pub fn as_str(self) -> (r: &'static str)
        ensures
            r@ == self.name(),
    {
        match self {
            MatchVia::StableInstanceId => "stable_instance_id",
            MatchVia::StableId => "stable_id",
            MatchVia::ServiceName => "service_name",
            MatchVia::ContainerName => "container_name",
            MatchVia::ContainerId => "container_id",
            MatchVia::SystemdUnit => "systemd_unit",
            MatchVia::FilePath => "file_path",
            MatchVia::WindowsEventLog => "windows_event_log",
        }
    }

    pub fn confidence(self) -> (r: Confidence)
        ensures
            r == self.durability(),
    {
        match self {
            MatchVia::StableInstanceId | MatchVia::StableId | MatchVia::ServiceName => {
                Confidence::Explicit
            },
            MatchVia::ContainerName
            | MatchVia::SystemdUnit
            | MatchVia::FilePath
            | MatchVia::WindowsEventLog => Confidence::Strong,
            MatchVia::ContainerId => Confidence::Weak,
        }
    }
}

/// What resolving a directive came to.
#[derive(Debug, PartialEq, Eq)]
pub enum CollectMatch {
    /// Exactly one source.
    Matched(ResolvedAccess),
    /// A weak match fits several sources, and none is guessed.
    Ambiguous { candidates: usize },
    /// Nothing that was discovered fits.
    NotFound,
}

/// The reader to use, and the durable identity that it stands for.
#[derive(Debug, PartialEq, Eq)]
pub struct ResolvedAccess {
    pub access_method: AccessMethod,
    pub matched_via: MatchVia,
    /// The identity that outlives restarts.
    pub stable_identity: String,
    /// What to read right now. It may change when the identity does not.
    pub access_locator: String,
}

/// What a resolved access is.
#[verifier::ext_equal]
pub struct AccessView {
    pub access_method: AccessMethod,
    pub matched_via: MatchVia,
    pub stable_identity: Seq<char>,
    pub access_locator: Seq<char>,
}

impl View for ResolvedAccess {
    type V = AccessView;

    open spec fn view(&self) -> AccessView {
        AccessView {
            access_method: self.access_method,
            matched_via: self.matched_via,
            stable_identity: self.stable_identity@,
            access_locator: self.access_locator@,
        }
    }
}

/// What a match is.
pub enum MatchView {
    Matched(AccessView),
    Ambiguous(nat),
    NotFound,
}

impl View for CollectMatch {
    type V = MatchView;

    open spec fn view(&self) -> MatchView {
        match self {
            CollectMatch::Matched(access) => MatchView::Matched(access@),
            CollectMatch::Ambiguous { candidates } => MatchView::Ambiguous(*candidates as nat),
            CollectMatch::NotFound => MatchView::NotFound,
        }
    }
}

impl ResolvedAccess {
    pub fn confidence(&self) -> (r: Confidence)
        ensures
            r == self.matched_via.durability(),
    {
        self.matched_via.confidence()
    }
}

/// The outcome of a resolution, whatever it resolved to.
#[derive(Debug, Clone, Copy, PartialEq, Eq, Structural)]
pub enum MatchStatus {
    Matched,
    Ambiguous,
    NotFound,
}

impl MatchStatus {
    pub fn as_str(self) -> (r: &'static str)
        ensures
            r@ == match self {
                MatchStatus::Matched => "matched"@,
                MatchStatus::Ambiguous => "ambiguous"@,
                MatchStatus::NotFound => "not_found"@,
            },
    {
        match self {
            MatchStatus::Matched => "matched",
            MatchStatus::Ambiguous => "ambiguous",
            MatchStatus::NotFound => "not_found",
        }
    }
}

impl CollectMatch {
    pub fn status(&self) -> (r: MatchStatus)
        ensures
            r == match self@ {
                MatchView::Matched(_) => MatchStatus::Matched,
                MatchView::Ambiguous(_) => MatchStatus::Ambiguous,
                MatchView::NotFound => MatchStatus::NotFound,
            },
    {
        match self {
            CollectMatch::Matched(_) => MatchStatus::Matched,
            CollectMatch::Ambiguous { .. } => MatchStatus::Ambiguous,
            CollectMatch::NotFound => MatchStatus::NotFound,
        }
    }
}

// ---------------------------------------------------------------------------
// Aliases
// ---------------------------------------------------------------------------

/// Whether a container is known under a key: its ids, its name, its workload in
/// Kubernetes with and without the container, its service, its stable
/// identities, and the path of its log.
pub open spec fn has_alias(c: ContainerView, key: Seq<char>) -> bool {
    ||| key == c.id
    ||| c.name.len() > 0 && key == c.name
    ||| c.runtime == "kubernetes"@ && c.in_workload() && key == c.namespace + "/"@ + c.deployment
        + "/"@ + c.spec_name()
    ||| c.runtime == "kubernetes"@ && c.in_workload() && key == c.namespace + "/"@ + c.deployment
    ||| c.service_name.len() > 0 && key == c.service_name
    ||| c.stable_id() != c.name && key == c.stable_id()
    ||| c.stable_instance_id() != c.stable_id() && c.stable_instance_id() != c.name && key
        == c.stable_instance_id()
    ||| c.log_path.len() > 0 && key == c.log_path
    ||| c.container_id.len() > 0 && c.container_id != c.id && key == c.container_id
}

/// Whether the container at `at` is the last that is known under a key.
pub open spec fn last_with_alias(cs: Seq<ContainerView>, key: Seq<char>, at: int) -> bool {
    &&& 0 <= at < cs.len()
    &&& has_alias(cs[at], key)
    &&& forall|i: int| at < i < cs.len() ==> !has_alias(#[trigger] cs[i], key)
}

/// Whether some container is known under a key.
pub open spec fn some_alias(cs: Seq<ContainerView>, key: Seq<char>) -> bool {
    exists|i: int| 0 <= i < cs.len() && has_alias(#[trigger] cs[i], key)
}

/// Whether a container can be found at all: under some key it is the last.
pub open spec fn reachable(cs: Seq<ContainerView>, at: int) -> bool {
    exists|key: Seq<char>| #[trigger] last_with_alias(cs, key, at)
}

/// Whether an index from keys to places holds, for each key, the last container
/// that is known under it.
pub open spec fn indexes(index: Map<Seq<char>, usize>, cs: Seq<ContainerView>) -> bool {
    &&& forall|key: Seq<char>| #[trigger] index.contains_key(key) <==> some_alias(cs, key)
    &&& forall|key: Seq<char>|
        #[trigger] index.contains_key(key) ==> last_with_alias(cs, key, index[key] as int)
}

/// Every container is indexed under at least its id, so what has an alias has a
/// last one.
pub proof fn lemma_last_alias_exists(cs: Seq<ContainerView>, key: Seq<char>)
    requires
        some_alias(cs, key),
    ensures
        exists|at: int| #[trigger] last_with_alias(cs, key, at),
    decreases cs.len(),
{
    let n = cs.len() - 1;
    if has_alias(cs[n], key) {
        assert(last_with_alias(cs, key, n));
    } else {
        let rest = cs.drop_last();
        let i = choose|i: int| 0 <= i < cs.len() && has_alias(#[trigger] cs[i], key);
        assert(rest[i] == cs[i]);
        lemma_last_alias_exists(rest, key);
        let at = choose|at: int| #[trigger] last_with_alias(rest, key, at);
        assert forall|i: int| at < i < cs.len() implies !has_alias(#[trigger] cs[i], key) by {
            if i < n {
                assert(rest[i] == cs[i]);
            }
        }
        assert(cs[at] == rest[at]);
        assert(last_with_alias(cs, key, at));
    }
}

/// What the containers of a list are.
pub open spec fn container_views(v: Seq<Container>) -> Seq<ContainerView> {
    v.map_values(|c: Container| c@)
}

/// The keys that a container is known under.
fn aliases_of(c: &Container) -> (r: Vec<String>)
    ensures
        forall|key: Seq<char>| strings(r@).contains(key) <==> #[trigger] has_alias(c@, key),
{
    let mut keys: Vec<String> = Vec::new();
    push_key(&mut keys, c.id.clone());
    let ghost k0 = strings(keys@);
    assert(k0 =~= seq![c@.id]);
    assert(k0[0] == c@.id);
    if !c.name.as_str().is_empty() {
        push_key(&mut keys, c.name.clone());
    }
    if str_eq(c.runtime.as_str(), "kubernetes") && !c.namespace.as_str().is_empty()
        && !c.deployment.as_str().is_empty() {
        let spec_name = if !c.container_name.as_str().is_empty() {
            c.container_name.as_str()
        } else {
            c.name.as_str()
        };
        push_key(&mut keys, join3(c.namespace.as_str(), "/", c.deployment.as_str(), spec_name));
        push_key(&mut keys, join2(c.namespace.as_str(), "/", c.deployment.as_str()));
    }
    if !c.service_name.as_str().is_empty() {
        push_key(&mut keys, c.service_name.clone());
    }
    let stable = c.stable_id();
    if !str_eq(stable.as_str(), c.name.as_str()) {
        push_key(&mut keys, stable.clone());
    }
    let instance = c.stable_instance_id();
    if !str_eq(instance.as_str(), stable.as_str()) && !str_eq(instance.as_str(), c.name.as_str()) {
        push_key(&mut keys, instance);
    }
    if !c.log_path.as_str().is_empty() {
        push_key(&mut keys, c.log_path.clone());
    }
    if !c.container_id.as_str().is_empty() && !str_eq(c.container_id.as_str(), c.id.as_str()) {
        push_key(&mut keys, c.container_id.clone());
    }
    keys
}

fn push_key(keys: &mut Vec<String>, key: String)
    ensures
        strings(final(keys)@) == strings(old(keys)@).push(key@),
        forall|k: Seq<char>|
            #[trigger] strings(final(keys)@).contains(k) <==> strings(old(keys)@).contains(k) || k
                == key@,
{
    let ghost before = strings(keys@);
    keys.push(key);
    proof {
        let after = strings(keys@);
        assert(after =~= before.push(key@));
        assert forall|k: Seq<char>| #[trigger] after.contains(k) <==> before.contains(k) || k
            == key@ by {
            if before.contains(k) {
                let i = choose|i: int| 0 <= i < before.len() && before[i] == k;
                assert(after[i] == k);
            }
            if k == key@ {
                assert(after[before.len() as int] == k);
            }
            if after.contains(k) && k != key@ {
                let i = choose|i: int| 0 <= i < after.len() && after[i] == k;
                assert(before[i] == k);
            }
        }
    }
}

// ---------------------------------------------------------------------------
// Resolution
// ---------------------------------------------------------------------------

/// Whether a container's id and an identifier begin with the same twelve bytes.
pub open spec fn same_id_prefix(id: Seq<char>, identifier: Seq<char>) -> bool {
    let a = encode_utf8(id);
    let b = encode_utf8(identifier);
    a.len() >= 12 && b.len() >= 12 && a.take(12) == b.take(12)
}

/// Whether a container's id and an identifier begin with the same twelve bytes.
pub fn matches_by_id(container: &Container, identifier: &str) -> (r: bool)
    ensures
        r == same_id_prefix(container@.id, identifier@),
{
    let a = container.id.as_str().as_bytes();
    let b = identifier.as_bytes();
    if a.len() < 12 || b.len() < 12 {
        return false;
    }
    let mut i: usize = 0;
    while i < 12
        invariant
            i <= 12,
            12 <= a@.len(),
            12 <= b@.len(),
            a.len() == a@.len(),
            b.len() == b@.len(),
            a@ == encode_utf8(container.id@),
            b@ == encode_utf8(identifier@),
            forall|j: int| 0 <= j < i ==> a@[j] == b@[j],
        decreases 12 - i,
    {
        if a[i] != b[i] {
            assert(a@.take(12)[i as int] != b@.take(12)[i as int]);
            return false;
        }
        i = i + 1;
    }
    assert(a@.take(12) =~= b@.take(12));
    true
}

/// Which of a container's keys an identifier is.
pub open spec fn classified(c: ContainerView, identifier: Seq<char>) -> MatchVia {
    if c.stable_instance_id() != c.stable_id() && c.stable_instance_id() == identifier {
        MatchVia::StableInstanceId
    } else if c.stable_id() == identifier {
        MatchVia::StableId
    } else if c.id == identifier || c.container_id == identifier {
        MatchVia::ContainerId
    } else if c.name == identifier {
        MatchVia::ContainerName
    } else if c.service_name == identifier {
        MatchVia::ServiceName
    } else if occurs(identifier, "/"@) {
        MatchVia::StableId
    } else {
        MatchVia::ContainerName
    }
}

pub fn classify_container_match(container: &Container, identifier: &str) -> (r: MatchVia)
    ensures
        r == classified(container@, identifier@),
{
    let stable = container.stable_id();
    let instance = container.stable_instance_id();
    if !str_eq(instance.as_str(), stable.as_str()) && str_eq(instance.as_str(), identifier) {
        return MatchVia::StableInstanceId;
    }
    if str_eq(stable.as_str(), identifier) {
        return MatchVia::StableId;
    }
    if str_eq(container.id.as_str(), identifier) || str_eq(
        container.container_id.as_str(),
        identifier,
    ) {
        return MatchVia::ContainerId;
    }
    if str_eq(container.name.as_str(), identifier) {
        return MatchVia::ContainerName;
    }
    if str_eq(container.service_name.as_str(), identifier) {
        return MatchVia::ServiceName;
    }
    if contains(identifier, "/") {
        return MatchVia::StableId;
    }
    MatchVia::ContainerName
}

/// The match with a container; none where there is nothing to read of it yet.
pub open spec fn matched_container(
    c: ContainerView,
    via: MatchVia,
    files: Set<Seq<char>>,
) -> MatchView {
    if c.log_locator(files).len() == 0 {
        MatchView::NotFound
    } else {
        MatchView::Matched(
            AccessView {
                access_method: c.access_method(files),
                matched_via: via,
                stable_identity: if via == MatchVia::StableInstanceId {
                    c.stable_instance_id()
                } else {
                    c.stable_id()
                },
                access_locator: c.log_locator(files),
            },
        )
    }
}

pub fn container_match(container: &Container, matched_via: MatchVia, files: &LocalFiles) -> (r:
    CollectMatch)
    ensures
        r@ == matched_container(container@, matched_via, files@),
{
    let access_locator = container.log_locator(files);
    if access_locator.as_str().is_empty() {
        return CollectMatch::NotFound;
    }
    let stable_identity = if matched_via == MatchVia::StableInstanceId {
        container.stable_instance_id()
    } else {
        container.stable_id()
    };
    CollectMatch::Matched(
        ResolvedAccess {
            access_method: container.determine_access_method(files),
            matched_via,
            stable_identity,
            access_locator,
        },
    )
}

/// The kind of loggable that a matching strategy looks for.
pub open spec fn loggable_type(strategy: Seq<char>) -> Seq<char> {
    if strategy == "env_var"@ || strategy == "container_name"@ || strategy == "container_id"@
        || strategy == "stable_id"@ || strategy == "stable_instance_id"@ || strategy == "log_path"@
        || strategy == "image"@ {
        "container"@
    } else if strategy == "systemd_unit"@ {
        "systemd_service"@
    } else if strategy == "file_path"@ {
        "file"@
    } else if strategy == "windows_event_log"@ {
        "windows_event_log"@
    } else {
        ""@
    }
}

pub fn infer_loggable_type(matching_strategy: &str) -> (r: &'static str)
    ensures
        r@ == loggable_type(matching_strategy@),
{
    let s = matching_strategy;
    if str_eq(s, "env_var") || str_eq(s, "container_name") || str_eq(s, "container_id") || str_eq(
        s,
        "stable_id",
    ) || str_eq(s, "stable_instance_id") || str_eq(s, "log_path") || str_eq(s, "image") {
        "container"
    } else if str_eq(s, "systemd_unit") {
        "systemd_service"
    } else if str_eq(s, "file_path") {
        "file"
    } else if str_eq(s, "windows_event_log") {
        "windows_event_log"
    } else {
        ""
    }
}

/// The numbers of what a cache holds.
#[derive(Debug, Clone, Copy, PartialEq, Eq, Structural)]
pub struct DiscoveryCacheStats {
    pub containers: usize,
    pub files: usize,
    pub systemd_services: usize,
    pub event_log_channels: usize,
}

impl DiscoveryCacheStats {
    pub fn total(&self) -> (r: usize)
        requires
            self.containers + self.files + self.systemd_services + self.event_log_channels
                <= usize::MAX,
        ensures
            r == self.containers + self.files + self.systemd_services + self.event_log_channels,
    {
        self.containers + self.files + self.systemd_services + self.event_log_channels
    }
}

impl Default for DiscoveryCacheStats {
    fn default() -> (r: Self)
        ensures
            r.containers == 0,
            r.files == 0,
            r.systemd_services == 0,
            r.event_log_channels == 0,
    {
        DiscoveryCacheStats { containers: 0, files: 0, systemd_services: 0, event_log_channels: 0 }
    }
}

/// A complete inventory of containers, with the epoch that it was taken at.
pub struct CompleteContainerSnapshot {
    pub epoch: u64,
    pub containers: Vec<Container>,
}

/// An index of what the last scan found.
pub struct DiscoveryCache {
    containers: Vec<Container>,
    /// Under each key, the place of the last container that is known under it.
    aliases: StrMap<usize>,
    files: StrMap<LogFile>,
    systemd_services: StrMap<SystemdService>,
    event_log_channels: StrMap<EventLogChannel>,
    /// How many scans were applied.
    epoch: u64,
    /// Why the inventory of containers is not complete, if it is not.
    container_inventory_error: Option<String>,
}

/// What a cache holds.
pub struct CacheView {
    pub containers: Seq<ContainerView>,
    pub files: Map<Seq<char>, LogFile>,
    pub systemd_services: Map<Seq<char>, SystemdService>,
    pub event_log_channels: Map<Seq<char>, EventLogChannel>,
    pub epoch: u64,
    pub container_inventory_error: Option<Seq<char>>,
}

impl View for DiscoveryCache {
    type V = CacheView;

    closed spec fn view(&self) -> CacheView {
        CacheView {
            containers: container_views(self.containers@),
            files: self.files@,
            systemd_services: self.systemd_services@,
            event_log_channels: self.event_log_channels@,
            epoch: self.epoch,
            container_inventory_error: opt_view(self.container_inventory_error),
        }
    }
}

/// The last file of each path.
pub open spec fn files_by_path(files: Seq<LogFile>) -> Map<Seq<char>, LogFile>
    decreases files.len(),
{
    if files.len() == 0 {
        Map::empty()
    } else {
        files_by_path(files.drop_last()).insert(files.last().path@, files.last())
    }
}

/// The last service of each unit name and of each service name.
pub open spec fn services_by_name(services: Seq<SystemdService>) -> Map<Seq<char>, SystemdService>
    decreases services.len(),
{
    if services.len() == 0 {
        Map::empty()
    } else {
        let s = services.last();
        let m = services_by_name(services.drop_last()).insert(s.name@, s);
        if s.service_name@.len() > 0 {
            m.insert(s.service_name@, s)
        } else {
            m
        }
    }
}

/// The last channel of each name.
pub open spec fn channels_by_name(channels: Seq<EventLogChannel>) -> Map<
    Seq<char>,
    EventLogChannel,
>
    decreases channels.len(),
{
    if channels.len() == 0 {
        Map::empty()
    } else {
        channels_by_name(channels.drop_last()).insert(channels.last().channel@, channels.last())
    }
}

/// The names of the container backends that failed, with commas between them.
pub open spec fn failed_backends(errors: Set<Seq<char>>) -> Seq<char> {
    let docker = errors.contains("docker"@);
    let kubernetes = errors.contains("kubernetes"@);
    let cri = errors.contains("cri"@);
    let a = if docker {
        "docker"@
    } else {
        seq![]
    };
    let b = if kubernetes {
        if docker {
            a + ", "@ + "kubernetes"@
        } else {
            "kubernetes"@
        }
    } else {
        a
    };
    if cri {
        if docker || kubernetes {
            b + ", "@ + "cri"@
        } else {
            "cri"@
        }
    } else {
        b
    }
}

/// Why the inventory of containers is not complete after a scan, if it is not.
pub open spec fn inventory_error(errors: Set<Seq<char>>) -> Option<Seq<char>> {
    if errors.contains("docker"@) || errors.contains("kubernetes"@) || errors.contains("cri"@) {
        Some("container discovery failed: "@ + failed_backends(errors))
    } else {
        None
    }
}

/// What a cache holds after a scan.
pub open spec fn after_scan(before: CacheView, census: Census) -> CacheView {
    CacheView {
        containers: container_views(census.containers@),
        files: files_by_path(census.log_files@),
        systemd_services: services_by_name(census.systemd_services@),
        event_log_channels: channels_by_name(census.event_log_channels@),
        epoch: (before.epoch + 1) as u64,
        container_inventory_error: inventory_error(census.errors@.dom()),
    }
}

fn add_backend(names: String, errors: &StrMap<String>, backend: &str) -> (r: String)
    ensures
        r@ == if errors@.contains_key(backend@) {
            if names@.len() > 0 {
                names@ + ", "@ + backend@
            } else {
                backend@
            }
        } else {
            names@
        },
{
    if !errors.contains_key(backend) {
        return names;
    }
    if names.as_str().is_empty() {
        backend.to_owned()
    } else {
        join2(names.as_str(), ", ", backend)
    }
}

fn describe_failures(errors: &StrMap<String>) -> (r: Option<String>)
    ensures
        opt_view(r) == inventory_error(errors@.dom()),
{
    let none = String::new();
    assert(none@ =~= seq![]);
    let names = add_backend(none, errors, "docker");
    let names = add_backend(names, errors, "kubernetes");
    let names = add_backend(names, errors, "cri");
    proof {
        reveal_strlit("docker");
        reveal_strlit("kubernetes");
        reveal_strlit("cri");
        assert("docker"@.len() == 6);
        assert("kubernetes"@.len() == 10);
        assert("cri"@.len() == 3);
    }
    if names.as_str().is_empty() {
        None
    } else {
        Some(concat("container discovery failed: ", names.as_str()))
    }
}

/// A container with its place in the order of instances.
struct ByInstance {
    place: usize,
    instance: String,
    id: String,
}

impl Sortable for ByInstance {
    closed spec fn sort_key(&self) -> SortKey {
        SortKey { major: 0, first: self.instance@, second: self.id@, third: seq![], minor: 0 }
    }

    fn precedes(&self, other: &Self) -> (r: bool) {
        proof {
            crate::order::lemma_lex_irreflexive(self.id@);
        }
        if !str_eq(self.instance.as_str(), other.instance.as_str()) {
            str_less(self.instance.as_str(), other.instance.as_str())
        } else {
            str_less(self.id.as_str(), other.id.as_str())
        }
    }
}

/// What containers are sorted by: the identity of the instance, then the id.
pub open spec fn instance_key(c: ContainerView) -> SortKey {
    SortKey { major: 0, first: c.stable_instance_id(), second: c.id, third: seq![], minor: 0 }
}

/// Whether a container is the last of the reachable ones that share its id.
pub open spec fn stands_for_id(cs: Seq<ContainerView>, at: int) -> bool {
    &&& reachable(cs, at)
    &&& forall|i: int| #[trigger] reachable(cs, i) && cs[i].id == cs[at].id ==> i <= at
}

/// Whether a container is one that stands for its id.
pub open spec fn is_distinct(cs: Seq<ContainerView>, c: ContainerView) -> bool {
    exists|i: int| #[trigger] stands_for_id(cs, i) && cs[i] == c
}

/// Whether some container of a list has the id.
pub open spec fn has_id(r: Seq<ContainerView>, id: Seq<char>) -> bool {
    exists|j: int| 0 <= j < r.len() && #[trigger] r[j].id == id
}

/// Whether `r` are the distinct containers of a cache: for each id that a reachable
/// container has the last one that has it, in the order of their instances.
pub open spec fn distinct(cs: Seq<ContainerView>, r: Seq<ContainerView>) -> bool {
    &&& forall|j: int| 0 <= j < r.len() ==> is_distinct(cs, #[trigger] r[j])
    &&& forall|i: int| #[trigger] reachable(cs, i) ==> has_id(r, cs[i].id)
    &&& forall|i: int, j: int| 0 <= i < j < r.len() ==> #[trigger] r[i].id != #[trigger] r[j].id
    &&& forall|i: int, j: int|
        0 <= i < j < r.len() ==> key_less(
            instance_key(#[trigger] r[i]),
            instance_key(#[trigger] r[j]),
        )
}

/// The ids that reachable containers share a prefix with an identifier in.
pub open spec fn prefix_ids(cs: Seq<ContainerView>, identifier: Seq<char>) -> Set<Seq<char>> {
    Set::new(
        |id: Seq<char>|
            same_id_prefix(id, identifier) && exists|i: int| #[trigger]
                reachable(cs, i) && cs[i].id == id,
    )
}

/// Whether `r` is what an identifier resolves to among containers. A key that
/// is known leads to the last container known under it. Else the ids that share
/// a prefix with the identifier decide: one is the match, by the last container that
/// has it, and several are refused.
pub open spec fn container_resolution(
    cs: Seq<ContainerView>,
    identifier: Seq<char>,
    files: Set<Seq<char>>,
    r: MatchView,
) -> bool {
    let ids = prefix_ids(cs, identifier);
    if some_alias(cs, identifier) {
        forall|at: int| #[trigger]
            last_with_alias(cs, identifier, at) ==> r == matched_container(
                cs[at],
                classified(cs[at], identifier),
                files,
            )
    } else if ids.len() == 0 {
        r == MatchView::NotFound
    } else if ids.len() == 1 {
        exists|i: int| #[trigger]
            stands_for_id(cs, i) && same_id_prefix(cs[i].id, identifier) && r == matched_container(
                cs[i],
                MatchVia::ContainerId,
                files,
            )
    } else {
        r == MatchView::Ambiguous(ids.len())
    }
}

/// What an identifier resolves to among files: a readable file at that path.
pub open spec fn file_resolution(files: Map<Seq<char>, LogFile>, identifier: Seq<char>) -> MatchView {
    if files.contains_key(identifier) && files[identifier].readable {
        MatchView::Matched(
            AccessView {
                access_method: AccessMethod::File,
                matched_via: MatchVia::FilePath,
                stable_identity: files[identifier].path@,
                access_locator: files[identifier].path@,
            },
        )
    } else {
        MatchView::NotFound
    }
}

/// What an identifier resolves to among services: a loaded service unit.
pub open spec fn systemd_resolution(
    services: Map<Seq<char>, SystemdService>,
    identifier: Seq<char>,
) -> MatchView {
    if services.contains_key(identifier) && services[identifier].load_state@ == "loaded"@
        && ".service"@.is_suffix_of(services[identifier].name@) {
        MatchView::Matched(
            AccessView {
                access_method: AccessMethod::Journald,
                matched_via: MatchVia::SystemdUnit,
                stable_identity: services[identifier].name@,
                access_locator: services[identifier].name@,
            },
        )
    } else {
        MatchView::NotFound
    }
}

/// What an identifier resolves to among event log channels: one that was seen.
pub open spec fn channel_resolution(
    channels: Map<Seq<char>, EventLogChannel>,
    identifier: Seq<char>,
) -> MatchView {
    if channels.contains_key(identifier) {
        MatchView::Matched(
            AccessView {
                access_method: AccessMethod::WindowsEventLog,
                matched_via: MatchVia::WindowsEventLog,
                stable_identity: channels[identifier].channel@,
                access_locator: channels[identifier].channel@,
            },
        )
    } else {
        MatchView::NotFound
    }
}

/// What an identifier resolves to where containers have nothing.
pub open spec fn other_resolution(cache: CacheView, identifier: Seq<char>) -> MatchView {
    let file = file_resolution(cache.files, identifier);
    let systemd = systemd_resolution(cache.systemd_services, identifier);
    if !(file is NotFound) {
        file
    } else if !(systemd is NotFound) {
        systemd
    } else {
        channel_resolution(cache.event_log_channels, identifier)
    }
}

/// Whether `r` is what an identifier resolves to, given what kind of loggable
/// it is said to be. An unknown kind is looked for among containers first, then
/// files, services and channels; a refusal among containers stands.
pub open spec fn resolution(
    cache: CacheView,
    identifier: Seq<char>,
    kind: Seq<char>,
    files: Set<Seq<char>>,
    r: MatchView,
) -> bool {
    if kind == "container"@ {
        container_resolution(cache.containers, identifier, files, r)
    } else if kind == "file"@ {
        r == file_resolution(cache.files, identifier)
    } else if kind == "systemd_service"@ || kind == "journald"@ {
        r == systemd_resolution(cache.systemd_services, identifier)
    } else if kind == "windows_event_log"@ {
        r == channel_resolution(cache.event_log_channels, identifier)
    } else {
        ||| container_resolution(cache.containers, identifier, files, r) && !(r is NotFound)
        ||| container_resolution(cache.containers, identifier, files, MatchView::NotFound) && r
            == other_resolution(cache, identifier)
    }
}

fn index_container(index: &mut StrMap<usize>, keys: &Vec<String>, place: usize)
    ensures
        forall|k: Seq<char>| #[trigger]
            final(index)@.contains_key(k) <==> old(index)@.contains_key(k) || strings(
                keys@,
            ).contains(k),
        forall|k: Seq<char>| #[trigger]
            strings(keys@).contains(k) ==> final(index)@[k] == place,
        forall|k: Seq<char>|
            !strings(keys@).contains(k) && old(index)@.contains_key(k) ==> #[trigger] final(index)@[k] == old(index)@[k],
        old(index).distinct() ==> final(index).distinct(),
{
    let ghost all = strings(keys@);
    let ghost before = index@;
    let mut i: usize = 0;
    while i < keys.len()
        invariant
            i <= keys@.len(),
            all == strings(keys@),
            before == old(index)@,
            old(index).distinct() ==> index.distinct(),
            forall|k: Seq<char>| #[trigger]
                index@.contains_key(k) <==> before.contains_key(k) || all.take(
                    i as int,
                ).contains(k),
            forall|k: Seq<char>| #[trigger]
                all.take(i as int).contains(k) ==> index@[k] == place,
            forall|k: Seq<char>|
                !all.take(i as int).contains(k) && before.contains_key(k) ==> #[trigger] index@[k]
                    == before[k],
        decreases keys.len() - i,
    {
        let ghost seen = all.take(i as int);
        let ghost next = all.take(i + 1);
        proof {
            assert(next =~= seen.push(keys@[i as int]@));
            lemma_push_contains(seen, keys@[i as int]@);
        }
        index.insert(keys[i].clone(), place);
        i = i + 1;
    }
    assert(all.take(i as int) =~= all);
}

proof fn lemma_push_contains(s: Seq<Seq<char>>, x: Seq<char>)
    ensures
        forall|k: Seq<char>| #[trigger] s.push(x).contains(k) <==> s.contains(k) || k == x,
{
    let t = s.push(x);
    assert forall|k: Seq<char>| #[trigger] t.contains(k) <==> s.contains(k) || k == x by {
        if s.contains(k) {
            let i = choose|i: int| 0 <= i < s.len() && s[i] == k;
            assert(t[i] == k);
        }
        if k == x {
            assert(t[s.len() as int] == k);
        }
        if t.contains(k) && k != x {
            let i = choose|i: int| 0 <= i < t.len() && t[i] == k;
            assert(s[i] == k);
        }
    }
}

/// What indexing one more container does.
proof fn lemma_index_step(
    before: Map<Seq<char>, usize>,
    after: Map<Seq<char>, usize>,
    cs: Seq<ContainerView>,
    c: ContainerView,
    place: usize,
)
    requires
        indexes(before, cs),
        place == cs.len(),
        forall|k: Seq<char>| #[trigger]
            after.contains_key(k) <==> before.contains_key(k) || has_alias(c, k),
        forall|k: Seq<char>| has_alias(c, k) ==> #[trigger] after[k] == place,
        forall|k: Seq<char>|
            !has_alias(c, k) && before.contains_key(k) ==> #[trigger] after[k] == before[k],
    ensures
        indexes(after, cs.push(c)),
{
    let ds = cs.push(c);
    assert forall|k: Seq<char>| #[trigger] after.contains_key(k) <==> some_alias(ds, k) by {
        if has_alias(c, k) {
            assert(has_alias(ds[cs.len() as int], k));
        }
        if before.contains_key(k) {
            let i = choose|i: int| 0 <= i < cs.len() && has_alias(#[trigger] cs[i], k);
            assert(ds[i] == cs[i]);
        }
        if some_alias(ds, k) && !has_alias(c, k) {
            let i = choose|i: int| 0 <= i < ds.len() && has_alias(#[trigger] ds[i], k);
            assert(ds[i] == cs[i]);
        }
    }
    assert forall|k: Seq<char>| #[trigger] after.contains_key(k) implies last_with_alias(
        ds,
        k,
        after[k] as int,
    ) by {
        if has_alias(c, k) {
            assert(ds[place as int] == c);
        } else {
            let at = before[k] as int;
            assert(last_with_alias(cs, k, at));
            assert(ds[at] == cs[at]);
            assert forall|i: int| at < i < ds.len() implies !has_alias(#[trigger] ds[i], k) by {
                if i < cs.len() {
                    assert(ds[i] == cs[i]);
                }
            }
        }
    }
}

fn index_containers(containers: &Vec<Container>) -> (r: (Vec<Container>, StrMap<usize>))
    ensures
        container_views(r.0@) == container_views(containers@),
        indexes(r.1@, container_views(containers@)),
        r.1.distinct(),
{
    let ghost all = container_views(containers@);
    let mut copies: Vec<Container> = Vec::new();
    let mut index: StrMap<usize> = StrMap::new();
    let mut i: usize = 0;
    assert(container_views(copies@) =~= all.take(0));
    while i < containers.len()
        invariant
            i <= containers@.len(),
            all == container_views(containers@),
            container_views(copies@) == all.take(i as int),
            indexes(index@, all.take(i as int)),
            index.distinct(),
        decreases containers.len() - i,
    {
        let ghost seen = all.take(i as int);
        let ghost before = index@;
        let keys = aliases_of(&containers[i]);
        index_container(&mut index, &keys, i);
        proof {
            let c = containers@[i as int]@;
            assert(all[i as int] == c);
            assert(all.take(i + 1) =~= seen.push(c));
            assert forall|k: Seq<char>| #[trigger]
                index@.contains_key(k) <==> before.contains_key(k) || has_alias(c, k) by {
                assert(strings(keys@).contains(k) <==> has_alias(c, k));
            }
            assert forall|k: Seq<char>| has_alias(c, k) implies #[trigger] index@[k] == i by {
                assert(strings(keys@).contains(k));
            }
            lemma_index_step(before, index@, seen, c, i);
        }
        let copy = containers[i].copy();
        let ghost views_before = container_views(copies@);
        copies.push(copy);
        assert(container_views(copies@) =~= views_before.push(copy@));
        i = i + 1;
    }
    assert(all.take(i as int) =~= all);
    (copies, index)
}

fn index_files(files: &Vec<LogFile>) -> (r: StrMap<LogFile>)
    ensures
        r@ == files_by_path(files@),
        r.distinct(),
{
    let mut m: StrMap<LogFile> = StrMap::new();
    let mut i: usize = 0;
    while i < files.len()
        invariant
            i <= files@.len(),
            m@ == files_by_path(files@.take(i as int)),
            m.distinct(),
        decreases files.len() - i,
    {
        assert(files@.take(i + 1).drop_last() =~= files@.take(i as int));
        m.insert(files[i].path.clone(), files[i].copy());
        i = i + 1;
    }
    assert(files@.take(i as int) =~= files@);
    m
}

fn index_services(services: &Vec<SystemdService>) -> (r: StrMap<SystemdService>)
    ensures
        r@ == services_by_name(services@),
        r.distinct(),
{
    let mut m: StrMap<SystemdService> = StrMap::new();
    let mut i: usize = 0;
    while i < services.len()
        invariant
            i <= services@.len(),
            m@ == services_by_name(services@.take(i as int)),
            m.distinct(),
        decreases services.len() - i,
    {
        assert(services@.take(i + 1).drop_last() =~= services@.take(i as int));
        m.insert(services[i].name.clone(), services[i].copy());
        if !services[i].service_name.as_str().is_empty() {
            m.insert(services[i].service_name.clone(), services[i].copy());
        }
        i = i + 1;
    }
    assert(services@.take(i as int) =~= services@);
    m
}

fn index_channels(channels: &Vec<EventLogChannel>) -> (r: StrMap<EventLogChannel>)
    ensures
        r@ == channels_by_name(channels@),
        r.distinct(),
{
    let mut m: StrMap<EventLogChannel> = StrMap::new();
    let mut i: usize = 0;
    while i < channels.len()
        invariant
            i <= channels@.len(),
            m@ == channels_by_name(channels@.take(i as int)),
            m.distinct(),
        decreases channels.len() - i,
    {
        assert(channels@.take(i + 1).drop_last() =~= channels@.take(i as int));
        m.insert(channels[i].channel.clone(), channels[i].copy());
        i = i + 1;
    }
    assert(channels@.take(i as int) =~= channels@);
    m
}

/// An index without containers indexes none.
proof fn lemma_empty_index()
    ensures
        indexes(Map::<Seq<char>, usize>::empty(), seq![]),
{
}

/// The last container known under a key is one.
pub proof fn lemma_last_alias_unique(cs: Seq<ContainerView>, key: Seq<char>, a: int, b: int)
    requires
        last_with_alias(cs, key, a),
        last_with_alias(cs, key, b),
    ensures
        a == b,
{
    if a < b {
        assert(has_alias(cs[b], key));
    } else if b < a {
        assert(has_alias(cs[a], key));
    }
}

impl DiscoveryCache {
    #[verifier::type_invariant]
    closed spec fn well_formed(self) -> bool {
        &&& indexes(self.aliases@, container_views(self.containers@))
        &&& self.aliases.distinct()
        &&& self.files.distinct()
        &&& self.systemd_services.distinct()
        &&& self.event_log_channels.distinct()
    }

    /// A cache to which no scan was applied.
    pub fn new() -> (r: Self)
        ensures
            r@.containers == Seq::<ContainerView>::empty(),
            r@.files == Map::<Seq<char>, LogFile>::empty(),
            r@.systemd_services == Map::<Seq<char>, SystemdService>::empty(),
            r@.event_log_channels == Map::<Seq<char>, EventLogChannel>::empty(),
            r@.epoch == 0,
            r@.container_inventory_error is None,
    {
        let containers: Vec<Container> = Vec::new();
        let aliases: StrMap<usize> = StrMap::new();
        proof {
            assert(container_views(containers@) =~= seq![]);
            lemma_empty_index();
        }
        DiscoveryCache {
            containers,
            aliases,
            files: StrMap::new(),
            systemd_services: StrMap::new(),
            event_log_channels: StrMap::new(),
            epoch: 0,
            container_inventory_error: None,
        }
    }

    /// How many scans were applied.
    pub fn epoch(&self) -> (r: u64)
        ensures
            r == self@.epoch,
    {
        self.epoch
    }

    /// Replaces all entries by those of a scan.
    pub fn update_all(&mut self, census: &Census)
        requires
            old(self)@.epoch < u64::MAX,
        ensures
            final(self)@ == after_scan(old(self)@, *census),
    {
        let (containers, aliases) = index_containers(&census.containers);
        let epoch: u64 = self.epoch + 1;
        let next = DiscoveryCache {
            containers,
            aliases,
            files: index_files(&census.log_files),
            systemd_services: index_services(&census.systemd_services),
            event_log_channels: index_channels(&census.event_log_channels),
            epoch,
            container_inventory_error: describe_failures(&census.errors),
        };
        *self = next;
    }

    /// Every place that the index leads to is reachable, and every reachable
    /// place is one that the index leads to.
    proof fn lemma_index_reaches(&self)
        requires
            self.well_formed(),
        ensures
            forall|i: int|
                0 <= i < self.aliases.entries@.len() ==> reachable(
                    self@.containers,
                    #[trigger] self.aliases.entries@[i].1 as int,
                ),
            forall|at: int| #[trigger]
                reachable(self@.containers, at) ==> exists|i: int|
                    0 <= i < self.aliases.entries@.len() && #[trigger] self.aliases.entries@[i].1
                        == at,
    {
        let cs = self@.containers;
        let es = self.aliases.entries@;
        assert forall|i: int| 0 <= i < es.len() implies reachable(
            cs,
            #[trigger] es[i].1 as int,
        ) by {
            crate::strmap::lemma_distinct_entry(es, i);
            assert(last_with_alias(cs, es[i].0@, es[i].1 as int));
        }
        assert forall|at: int| #[trigger] reachable(cs, at) implies exists|i: int|
            0 <= i < es.len() && #[trigger] es[i].1 == at by {
            let key = choose|key: Seq<char>| #[trigger] last_with_alias(cs, key, at);
            assert(some_alias(cs, key)) by {
                assert(has_alias(cs[at], key));
            }
            assert(self.aliases@.contains_key(key));
            lemma_last_alias_unique(cs, key, at, self.aliases@[key] as int);
            crate::strmap::lemma_position(es, key);
            assert(es[crate::strmap::position(es, key)].1 == at);
        }
    }

    /// The places of distinct containers: for each id of a reachable one the last.
    fn distinct_places(&self) -> (r: Vec<usize>)
        ensures
            forall|j: int|
                0 <= j < r@.len() ==> stands_for_id(self@.containers, #[trigger] r@[j] as int)
                    && r@[j] < self@.containers.len(),
            forall|i: int| #[trigger]
                reachable(self@.containers, i) ==> exists|j: int|
                    0 <= j < r@.len() && self@.containers[#[trigger] r@[j] as int].id
                        == self@.containers[i].id,
            forall|i: int, j: int|
                0 <= i < j < r@.len() ==> self@.containers[#[trigger] r@[i] as int].id
                    != self@.containers[#[trigger] r@[j] as int].id,
    {
        proof {
            use_type_invariant(self);
            self.lemma_index_reaches();
        }
        let ghost cs = self@.containers;
        let ghost es = self.aliases.entries@;
        let mut places: Vec<usize> = Vec::new();
        let mut i: usize = 0;
        while i < self.aliases.entries.len()
            invariant
                i <= self.aliases.entries@.len(),
                cs == self@.containers,
                cs == container_views(self.containers@),
                es == self.aliases.entries@,
                forall|k: int|
                    0 <= k < es.len() ==> reachable(cs, #[trigger] es[k].1 as int),
                forall|j: int|
                    0 <= j < places@.len() ==> reachable(cs, #[trigger] places@[j] as int)
                        && places@[j] < cs.len(),
                forall|k: int| 0 <= k < i ==> covered(places@, cs, #[trigger] es[k].1 as int),
                forall|a: int, b: int|
                    0 <= a < b < places@.len() ==> cs[#[trigger] places@[a] as int].id
                        != cs[#[trigger] places@[b] as int].id,
            decreases self.aliases.entries.len() - i,
        {
            let p = self.aliases.entries[i].1;
            proof {
                assert(reachable(cs, es[i as int].1 as int));
                let key = choose|key: Seq<char>| #[trigger] last_with_alias(cs, key, p as int);
                assert(p < cs.len());
                assert(cs[p as int] == self.containers@[p as int]@);
            }
            let known = self.place_of_id(&places, self.containers[p].id.as_str());
            let ghost before = places@;
            match known {
                Some(j) => {
                    if places[j] < p {
                        places.set(j, p);
                    }
                    proof {
                        assert(cs[places@[j as int] as int].id == cs[p as int].id);
                        assert forall|a: int, b: int| 0 <= a < b < places@.len() implies cs[
                            #[trigger] places@[a] as int].id != cs[#[trigger] places@[b] as int].id by {
                            assert(cs[before[a] as int].id != cs[before[b] as int].id);
                        }
                        assert forall|k: int| 0 <= k < i + 1 implies covered(
                            places@,
                            cs,
                            #[trigger] es[k].1 as int,
                        ) by {
                            let q = es[k].1 as int;
                            if k < i {
                                assert(covered(before, cs, q));
                                let x = choose|x: int|
                                    0 <= x < before.len() && cs[#[trigger] before[x] as int].id
                                        == cs[q].id && q <= before[x];
                                assert(cs[places@[x] as int].id == cs[q].id && q <= places@[x]);
                            } else {
                                assert(q <= places@[j as int]);
                            }
                        }
                    }
                },
                None => {
                    places.push(p);
                    proof {
                        assert(places@[before.len() as int] == p);
                        assert forall|a: int, b: int| 0 <= a < b < places@.len() implies cs[
                            #[trigger] places@[a] as int].id != cs[#[trigger] places@[b] as int].id by {
                            if b == before.len() {
                                assert(before[a] == places@[a]);
                            }
                        }
                        assert forall|k: int| 0 <= k < i + 1 implies covered(
                            places@,
                            cs,
                            #[trigger] es[k].1 as int,
                        ) by {
                            let q = es[k].1 as int;
                            if k < i {
                                assert(covered(before, cs, q));
                                let x = choose|x: int|
                                    0 <= x < before.len() && cs[#[trigger] before[x] as int].id
                                        == cs[q].id && q <= before[x];
                                assert(places@[x] == before[x]);
                            }
                        }
                    }
                },
            }
            i = i + 1;
        }
        proof {
            assert forall|at: int| #[trigger] reachable(cs, at) implies covered(places@, cs, at) by {
                let k = choose|k: int| 0 <= k < es.len() && #[trigger] es[k].1 == at;
                assert(covered(places@, cs, es[k].1 as int));
            }
            assert forall|at: int| #[trigger] reachable(cs, at) implies exists|j: int|
                0 <= j < places@.len() && cs[#[trigger] places@[j] as int].id == cs[at].id by {
                assert(covered(places@, cs, at));
            }
            assert forall|j: int| 0 <= j < places@.len() implies stands_for_id(
                cs,
                #[trigger] places@[j] as int,
            ) by {
                let p = places@[j] as int;
                assert forall|q: int| #[trigger]
                    reachable(cs, q) && cs[q].id == cs[p].id implies q <= p by {
                    assert(covered(places@, cs, q));
                    let x = choose|x: int|
                        0 <= x < places@.len() && cs[#[trigger] places@[x] as int].id == cs[q].id && q
                            <= places@[x];
                    if x < j {
                        assert(cs[places@[x] as int].id != cs[places@[j] as int].id);
                    } else if j < x {
                        assert(cs[places@[j] as int].id != cs[places@[x] as int].id);
                    }
                }
            }
        }
        places
    }

    /// Which of some places is that of a container of the id.
    fn place_of_id(&self, places: &Vec<usize>, id: &str) -> (r: Option<usize>)
        requires
            forall|j: int|
                0 <= j < places@.len() ==> (#[trigger] places@[j]) < self@.containers.len(),
        ensures
            match r {
                Some(j) => j < places@.len() && self@.containers[places@[j as int] as int].id
                    == id@,
                None => forall|j: int|
                    0 <= j < places@.len() ==> self@.containers[#[trigger] places@[j] as int].id
                        != id@,
            },
    {
        let ghost cs = self@.containers;
        let mut i: usize = 0;
        while i < places.len()
            invariant
                i <= places@.len(),
                cs == self@.containers,
                cs == container_views(self.containers@),
                forall|j: int|
                    0 <= j < places@.len() ==> (#[trigger] places@[j]) < self@.containers.len(),
                forall|j: int| 0 <= j < i ==> cs[#[trigger] places@[j] as int].id != id@,
            decreases places.len() - i,
        {
            let p = places[i];
            assert(p < self.containers@.len());
            assert(cs[p as int] == self.containers@[p as int]@);
            if str_eq(self.containers[p].id.as_str(), id) {
                return Some(i);
            }
            i = i + 1;
        }
        None
    }

    /// Every distinct container, in the order of their instances, so that what
    /// is derived from them is the same after every scan.
    pub fn distinct_containers<'a>(&'a self) -> (r: Vec<&'a Container>)
        ensures
            distinct(self@.containers, ref_views(r@)),
    {
        let ghost cs = self@.containers;
        let places = self.distinct_places();
        let mut items: Vec<ByInstance> = Vec::new();
        let mut i: usize = 0;
        while i < places.len()
            invariant
                i <= places@.len(),
                cs == self@.containers,
                cs == container_views(self.containers@),
                forall|j: int|
                    0 <= j < places@.len() ==> (#[trigger] places@[j]) < self@.containers.len(),
                items@.len() == i,
                forall|j: int|
                    0 <= j < i ==> (#[trigger] items@[j]).place == places@[j]
                        && items@[j].instance@ == cs[places@[j] as int].stable_instance_id()
                        && items@[j].id@ == cs[places@[j] as int].id,
            decreases places.len() - i,
        {
            let place = places[i];
            assert(place < self.containers@.len());
            assert(cs[place as int] == self.containers@[place as int]@);
            items.push(
                ByInstance {
                    place,
                    instance: self.containers[place].stable_instance_id(),
                    id: self.containers[place].id.clone(),
                },
            );
            i = i + 1;
        }
        let ghost before = items@;
        let sorted = sorted_unique(items);
        proof {
            assert forall|k: int| 0 <= k < sorted@.len() implies (#[trigger] sorted@[k]).place
                < cs.len() by {
                assert(crate::order::is_first(before, sorted@[k]));
                let at = choose|at: int| #[trigger]
                    crate::order::first_with_key(before, at) && before[at] == sorted@[k];
                assert(places@[at] < cs.len());
            }
        }
        let mut out: Vec<&'a Container> = Vec::new();
        let mut j: usize = 0;
        while j < sorted.len()
            invariant
                j <= sorted@.len(),
                cs == self@.containers,
                cs == container_views(self.containers@),
                forall|k: int|
                    0 <= k < sorted@.len() ==> (#[trigger] sorted@[k]).place < cs.len(),
                out@.len() == j,
                forall|k: int|
                    0 <= k < j ==> (#[trigger] ref_views(out@)[k]) == cs[sorted@[k].place as int],
            decreases sorted.len() - j,
        {
            assert(sorted@[j as int].place < cs.len());
            let place = sorted[j].place;
            assert(cs[place as int] == self.containers@[place as int]@);
            let ghost before_views = ref_views(out@);
            out.push(&self.containers[place]);
            assert(ref_views(out@) =~= before_views.push(cs[place as int]));
            j = j + 1;
        }
        proof {
            lemma_distinct(cs, places@, before, sorted@, ref_views(out@));
        }
        out
    }

    /// An inventory of all containers, with its epoch. Before the first scan, and
    /// after one in which a container backend failed, there is none.
    pub fn complete_container_snapshot(&self) -> (r: Result<CompleteContainerSnapshot, String>)
        ensures
            match r {
                Ok(snapshot) => {
                    &&& self@.epoch != 0
                    &&& self@.container_inventory_error is None
                    &&& snapshot.epoch == self@.epoch
                    &&& distinct(self@.containers, container_views(snapshot.containers@))
                },
                Err(e) => if self@.epoch == 0 {
                    e@ == "container discovery has not completed an initial scan"@
                } else {
                    self@.container_inventory_error == Some(e@)
                },
            },
    {
        if self.epoch == 0 {
            return Err("container discovery has not completed an initial scan".to_owned());
        }
        if let Some(error) = &self.container_inventory_error {
            return Err(error.clone());
        }
        let refs = self.distinct_containers();
        let ghost all = ref_views(refs@);
        let mut containers: Vec<Container> = Vec::new();
        let mut i: usize = 0;
        assert(container_views(containers@) =~= all.take(0));
        while i < refs.len()
            invariant
                i <= refs@.len(),
                all == ref_views(refs@),
                container_views(containers@) == all.take(i as int),
            decreases refs.len() - i,
        {
            let c = refs[i].copy();
            let ghost before = container_views(containers@);
            assert(c@ == all[i as int]);
            containers.push(c);
            assert(container_views(containers@) =~= before.push(c@));
            i = i + 1;
            assert(all.take(i as int) =~= all.take(i - 1).push(all[i - 1]));
        }
        assert(all.take(i as int) =~= all);
        Ok(CompleteContainerSnapshot { epoch: self.epoch, containers })
    }

    /// Whether a snapshot of that epoch still holds: no scan came since, and the
    /// inventory is complete.
    pub fn verify_complete_container_epoch(&self, expected_epoch: u64) -> (r: Result<(), String>)
        ensures
            match r {
                Ok(_) => self@.epoch == expected_epoch && self@.container_inventory_error is None,
                Err(e) => if self@.epoch != expected_epoch {
                    e@ == "container discovery changed during listener snapshot ("@ + decimal(
                        expected_epoch as nat,
                    ) + " -> "@ + decimal(self@.epoch as nat) + ")"@
                } else {
                    self@.container_inventory_error == Some(e@)
                },
            },
    {
        if self.epoch != expected_epoch {
            let mut e = "container discovery changed during listener snapshot (".to_owned();
            e.append(decimal_of(expected_epoch).as_str());
            e.append(" -> ");
            e.append(decimal_of(self.epoch).as_str());
            e.append(")");
            return Err(e);
        }
        if let Some(error) = &self.container_inventory_error {
            return Err(error.clone());
        }
        Ok(())
    }

    /// What an identifier resolves to among containers.
    pub fn resolve_container(&self, identifier: &str, files: &LocalFiles) -> (r: CollectMatch)
        ensures
            container_resolution(self@.containers, identifier@, files@, r@),
    {
        proof {
            use_type_invariant(self);
        }
        let ghost cs = self@.containers;
        if let Some(place) = self.aliases.get(identifier) {
            let place: usize = *place;
            proof {
                assert(last_with_alias(cs, identifier@, place as int));
                assert(some_alias(cs, identifier@));
                assert(cs[place as int] == self.containers@[place as int]@);
                assert forall|at: int| #[trigger] last_with_alias(cs, identifier@, at) implies at
                    == place by {
                    lemma_last_alias_unique(cs, identifier@, at, place as int);
                }
            }
            let container = &self.containers[place];
            let via = classify_container_match(container, identifier);
            return container_match(container, via, files);
        }
        assert(!some_alias(cs, identifier@));
        let places = self.distinct_places();
        let mut candidates: Vec<usize> = Vec::new();
        let mut i: usize = 0;
        while i < places.len()
            invariant
                i <= places@.len(),
                cs == self@.containers,
                cs == container_views(self.containers@),
                forall|j: int|
                    0 <= j < places@.len() ==> (#[trigger] places@[j]) < self@.containers.len(),
                forall|j: int|
                    0 <= j < candidates@.len() ==> places@.contains(#[trigger] candidates@[j])
                        && same_id_prefix(cs[candidates@[j] as int].id, identifier@),
                forall|j: int|
                    0 <= j < i && same_id_prefix(cs[#[trigger] places@[j] as int].id, identifier@)
                        ==> candidates@.contains(places@[j]),
                forall|a: int, b: int|
                    0 <= a < b < places@.len() ==> cs[#[trigger] places@[a] as int].id
                        != cs[#[trigger] places@[b] as int].id,
                forall|a: int|
                    0 <= a < candidates@.len() ==> exists|b: int|
                        0 <= b < i && #[trigger] places@[b] == #[trigger] candidates@[a],
                forall|a: int, b: int|
                    0 <= a < b < candidates@.len() ==> cs[#[trigger] candidates@[a] as int].id
                        != cs[#[trigger] candidates@[b] as int].id,
            decreases places.len() - i,
        {
            let p = places[i];
            assert(p < self.containers@.len());
            assert(cs[p as int] == self.containers@[p as int]@);
            let ghost before = candidates@;
            if matches_by_id(&self.containers[p], identifier) {
                candidates.push(p);
                proof {
                    assert(candidates@[before.len() as int] == p);
                    assert(places@.contains(p)) by {
                        assert(places@[i as int] == p);
                    }
                    assert forall|j: int|
                        0 <= j < i + 1 && same_id_prefix(
                            cs[#[trigger] places@[j] as int].id,
                            identifier@,
                        ) implies candidates@.contains(places@[j]) by {
                        if j < i {
                            let k = choose|k: int| 0 <= k < before.len() && before[k] == places@[j];
                            assert(candidates@[k] == places@[j]);
                        }
                    }
                    assert forall|a: int, b: int| 0 <= a < b < candidates@.len() implies cs[
                        #[trigger] candidates@[a] as int].id != cs[#[trigger] candidates@[b] as int].id by {
                        if b == before.len() {
                            let k = choose|k: int|
                                0 <= k < i && #[trigger] places@[k] == before[a];
                            assert(cs[places@[k] as int].id != cs[places@[i as int] as int].id);
                        }
                    }
                    assert forall|a: int| 0 <= a < candidates@.len() implies exists|b: int|
                        0 <= b < i + 1 && #[trigger] places@[b] == #[trigger] candidates@[a] by {
                        if a < before.len() {
                            let k = choose|k: int|
                                0 <= k < i && #[trigger] places@[k] == before[a];
                            assert(places@[k] == candidates@[a]);
                        } else {
                            assert(places@[i as int] == candidates@[a]);
                        }
                    }
                }
            }
            i = i + 1;
        }
        proof {
            lemma_candidates(cs, identifier@, places@, candidates@);
        }
        if candidates.len() == 0 {
            CollectMatch::NotFound
        } else if candidates.len() == 1 {
            let p = candidates[0];
            proof {
                assert(places@.contains(candidates@[0]));
                let j = choose|j: int| 0 <= j < places@.len() && places@[j] == p;
                assert(places@[j] < cs.len());
                assert(stands_for_id(cs, places@[j] as int));
                assert(cs[p as int] == self.containers@[p as int]@);
            }
            container_match(&self.containers[p], MatchVia::ContainerId, files)
        } else {
            CollectMatch::Ambiguous { candidates: candidates.len() }
        }
    }

    /// What an identifier resolves to among files.
    pub fn resolve_file(&self, identifier: &str) -> (r: CollectMatch)
        ensures
            r@ == file_resolution(self@.files, identifier@),
    {
        match self.files.get(identifier) {
            Some(file) => if file.readable {
                CollectMatch::Matched(
                    ResolvedAccess {
                        access_method: AccessMethod::File,
                        matched_via: MatchVia::FilePath,
                        stable_identity: file.path.clone(),
                        access_locator: file.path.clone(),
                    },
                )
            } else {
                CollectMatch::NotFound
            },
            None => CollectMatch::NotFound,
        }
    }

    /// What an identifier resolves to among services.
    pub fn resolve_systemd(&self, identifier: &str) -> (r: CollectMatch)
        ensures
            r@ == systemd_resolution(self@.systemd_services, identifier@),
    {
        match self.systemd_services.get(identifier) {
            Some(service) => if str_eq(service.load_state.as_str(), "loaded") && ends_with(
                service.name.as_str(),
                ".service",
            ) {
                CollectMatch::Matched(
                    ResolvedAccess {
                        access_method: AccessMethod::Journald,
                        matched_via: MatchVia::SystemdUnit,
                        stable_identity: service.name.clone(),
                        access_locator: service.name.clone(),
                    },
                )
            } else {
                CollectMatch::NotFound
            },
            None => CollectMatch::NotFound,
        }
    }

    /// What an identifier resolves to among event log channels.
    pub fn resolve_windows_event_log(&self, identifier: &str) -> (r: CollectMatch)
        ensures
            r@ == channel_resolution(self@.event_log_channels, identifier@),
    {
        match self.event_log_channels.get(identifier) {
            Some(channel) => CollectMatch::Matched(
                ResolvedAccess {
                    access_method: AccessMethod::WindowsEventLog,
                    matched_via: MatchVia::WindowsEventLog,
                    stable_identity: channel.channel.clone(),
                    access_locator: channel.channel.clone(),
                },
            ),
            None => CollectMatch::NotFound,
        }
    }

    /// Resolves an identifier to a reader, given what kind of loggable it is
    /// said to be and which regular files the host holds.
    pub fn resolve(&self, identifier: &str, loggable_type: &str, files: &LocalFiles) -> (r:
        CollectMatch)
        ensures
            resolution(self@, identifier@, loggable_type@, files@, r@),
    {
        if str_eq(loggable_type, "container") {
            return self.resolve_container(identifier, files);
        }
        if str_eq(loggable_type, "file") {
            return self.resolve_file(identifier);
        }
        if str_eq(loggable_type, "systemd_service") || str_eq(loggable_type, "journald") {
            return self.resolve_systemd(identifier);
        }
        if str_eq(loggable_type, "windows_event_log") {
            return self.resolve_windows_event_log(identifier);
        }
        let container = self.resolve_container(identifier, files);
        if container.status() != MatchStatus::NotFound {
            return container;
        }
        let file = self.resolve_file(identifier);
        if file.status() != MatchStatus::NotFound {
            return file;
        }
        let systemd = self.resolve_systemd(identifier);
        if systemd.status() != MatchStatus::NotFound {
            return systemd;
        }
        self.resolve_windows_event_log(identifier)
    }

    /// The access method and the locator of a single match; nothing where the
    /// match is ambiguous or missing. The match is the one that `resolve` gives.
    pub fn resolve_access_method(
        &self,
        identifier: &str,
        loggable_type: &str,
        files: &LocalFiles,
    ) -> (r: Option<(AccessMethod, String)>)
        ensures
            match r {
                Some((method, locator)) => exists|a: AccessView| #[trigger]
                    resolution(
                        self@,
                        identifier@,
                        loggable_type@,
                        files@,
                        MatchView::Matched(a),
                    ) && a.access_method == method && a.access_locator == locator@,
                None => exists|m: MatchView| #[trigger]
                    resolution(self@, identifier@, loggable_type@, files@, m) && !(m is Matched),
            },
            forall|m: MatchView| #[trigger]
                resolution(self@, identifier@, loggable_type@, files@, m) ==> match m {
                    MatchView::Matched(a) => r is Some && (r->0).0 == a.access_method && (r->0).1@
                        == a.access_locator,
                    _ => r is None,
                },
    {
        let m = self.resolve(identifier, loggable_type, files);
        let ghost v = m@;
        proof {
            assert forall|m: MatchView| #[trigger]
                resolution(self@, identifier@, loggable_type@, files@, m) implies m == v by {
                resolution_is_deterministic(self@, identifier@, loggable_type@, files@, m, v);
            }
        }
        match m {
            CollectMatch::Matched(access) => {
                assert(v == MatchView::Matched(access@));
                Some((access.access_method, access.access_locator))
            },
            _ => {
                assert(resolution(self@, identifier@, loggable_type@, files@, v));
                None
            },
        }
    }

    /// How many distinct containers, paths, names of services and channels the
    /// cache holds.
    pub fn stats(&self) -> (r: DiscoveryCacheStats)
        ensures
            r.containers == reachable_ids(self@.containers).len(),
            r.files == self@.files.dom().len(),
            r.systemd_services == self@.systemd_services.dom().len(),
            r.event_log_channels == self@.event_log_channels.dom().len(),
    {
        proof {
            use_type_invariant(self);
            crate::strmap::lemma_map_len(self.files.entries@);
            crate::strmap::lemma_map_len(self.systemd_services.entries@);
            crate::strmap::lemma_map_len(self.event_log_channels.entries@);
        }
        let places = self.distinct_places();
        proof {
            lemma_reachable_ids(self@.containers, places@);
        }
        DiscoveryCacheStats {
            containers: places.len(),
            files: self.files.len(),
            systemd_services: self.systemd_services.len(),
            event_log_channels: self.event_log_channels.len(),
        }
    }
}

/// What containers behind references are.
pub open spec fn ref_views(v: Seq<&Container>) -> Seq<ContainerView> {
    v.map_values(|c: &Container| c@)
}

/// Whether one of some places is that of a container with the same id as that at
/// `at`, and not in front of it.
spec fn covered(places: Seq<usize>, cs: Seq<ContainerView>, at: int) -> bool {
    exists|j: int|
        0 <= j < places.len() && cs[#[trigger] places[j] as int].id == cs[at].id && at <= places[j]
}

/// The ids of the reachable containers.
pub open spec fn reachable_ids(cs: Seq<ContainerView>) -> Set<Seq<char>> {
    Set::new(|id: Seq<char>| exists|i: int| #[trigger] reachable(cs, i) && cs[i].id == id)
}

proof fn lemma_reachable_ids(cs: Seq<ContainerView>, places: Seq<usize>)
    requires
        forall|j: int| 0 <= j < places.len() ==> reachable(cs, #[trigger] places[j] as int),
        forall|i: int| #[trigger]
            reachable(cs, i) ==> exists|j: int|
                0 <= j < places.len() && cs[#[trigger] places[j] as int].id == cs[i].id,
        forall|i: int, j: int|
            0 <= i < j < places.len() ==> cs[#[trigger] places[i] as int].id != cs[
                #[trigger] places[j] as int].id,
    ensures
        reachable_ids(cs).len() == places.len(),
{
    let ids = places.map_values(|p: usize| cs[p as int].id);
    assert(ids.no_duplicates()) by {
        assert forall|i: int, j: int| 0 <= i < ids.len() && 0 <= j < ids.len() && i != j implies ids[i]
            != ids[j] by {
            if i < j {
                assert(cs[places[i] as int].id != cs[places[j] as int].id);
            } else {
                assert(cs[places[j] as int].id != cs[places[i] as int].id);
            }
        }
    }
    ids.unique_seq_to_set();
    assert(reachable_ids(cs) =~= ids.to_set()) by {
        assert forall|id: Seq<char>| reachable_ids(cs).contains(id) == ids.to_set().contains(id) by {
            if reachable_ids(cs).contains(id) {
                let i = choose|i: int| #[trigger] reachable(cs, i) && cs[i].id == id;
                let j = choose|j: int|
                    0 <= j < places.len() && cs[#[trigger] places[j] as int].id == cs[i].id;
                assert(ids[j] == id);
            }
            if ids.contains(id) {
                let j = choose|j: int| 0 <= j < ids.len() && ids[j] == id;
                assert(reachable(cs, places[j] as int));
            }
        }
    }
}

/// The candidates are as many as the ids that share the prefix.
proof fn lemma_candidates(
    cs: Seq<ContainerView>,
    identifier: Seq<char>,
    places: Seq<usize>,
    candidates: Seq<usize>,
)
    requires
        forall|j: int| 0 <= j < places.len() ==> reachable(cs, #[trigger] places[j] as int),
        forall|i: int| #[trigger]
            reachable(cs, i) ==> exists|j: int|
                0 <= j < places.len() && cs[#[trigger] places[j] as int].id == cs[i].id,
        forall|j: int|
            0 <= j < candidates.len() ==> places.contains(#[trigger] candidates[j])
                && same_id_prefix(cs[candidates[j] as int].id, identifier),
        forall|j: int|
            0 <= j < places.len() && same_id_prefix(cs[#[trigger] places[j] as int].id, identifier)
                ==> candidates.contains(places[j]),
        forall|a: int, b: int|
            0 <= a < b < candidates.len() ==> cs[#[trigger] candidates[a] as int].id != cs[
                #[trigger] candidates[b] as int].id,
    ensures
        prefix_ids(cs, identifier).len() == candidates.len(),
{
    let ids = candidates.map_values(|p: usize| cs[p as int].id);
    assert(ids.no_duplicates()) by {
        assert forall|i: int, j: int| 0 <= i < ids.len() && 0 <= j < ids.len() && i != j implies ids[i]
            != ids[j] by {
            if i < j {
                assert(cs[candidates[i] as int].id != cs[candidates[j] as int].id);
            } else {
                assert(cs[candidates[j] as int].id != cs[candidates[i] as int].id);
            }
        }
    }
    ids.unique_seq_to_set();
    let want = prefix_ids(cs, identifier);
    assert(want =~= ids.to_set()) by {
        assert forall|id: Seq<char>| want.contains(id) == ids.to_set().contains(id) by {
            if want.contains(id) {
                let i = choose|i: int| #[trigger] reachable(cs, i) && cs[i].id == id;
                let j = choose|j: int|
                    0 <= j < places.len() && cs[#[trigger] places[j] as int].id == cs[i].id;
                assert(candidates.contains(places[j]));
                let k = choose|k: int| 0 <= k < candidates.len() && candidates[k] == places[j];
                assert(ids[k] == id);
            }
            if ids.contains(id) {
                let k = choose|k: int| 0 <= k < ids.len() && ids[k] == id;
                assert(places.contains(candidates[k]));
                let j = choose|j: int| 0 <= j < places.len() && places[j] == candidates[k];
                assert(reachable(cs, places[j] as int));
            }
        }
    }
}

proof fn lemma_distinct(
    cs: Seq<ContainerView>,
    places: Seq<usize>,
    items: Seq<ByInstance>,
    sorted: Seq<ByInstance>,
    r: Seq<ContainerView>,
)
    requires
        forall|j: int| 0 <= j < places.len() ==> stands_for_id(cs, #[trigger] places[j] as int),
        forall|i: int| #[trigger]
            reachable(cs, i) ==> exists|j: int|
                0 <= j < places.len() && cs[#[trigger] places[j] as int].id == cs[i].id,
        forall|i: int, j: int|
            0 <= i < j < places.len() ==> cs[#[trigger] places[i] as int].id != cs[
                #[trigger] places[j] as int].id,
        items.len() == places.len(),
        forall|j: int|
            0 <= j < items.len() ==> (#[trigger] items[j]).place == places[j] && items[j].instance@
                == cs[places[j] as int].stable_instance_id() && items[j].id@ == cs[places[j] as int].id,
        crate::order::is_sorted_unique(items, sorted),
        r.len() == sorted.len(),
        forall|k: int| 0 <= k < r.len() ==> #[trigger] r[k] == cs[sorted[k].place as int],
    ensures
        distinct(cs, r),
{
    assert forall|k: int| 0 <= k < sorted.len() implies exists|at: int|
        0 <= at < items.len() && #[trigger] items[at] == #[trigger] sorted[k] by {
        assert(crate::order::is_first(items, sorted[k]));
        let at = choose|at: int| #[trigger]
            crate::order::first_with_key(items, at) && items[at] == sorted[k];
        assert(items[at] == sorted[k]);
    }
    assert forall|k: int| 0 <= k < r.len() implies {
        &&& instance_key(#[trigger] r[k]) == sorted[k].sort_key()
        &&& is_distinct(cs, r[k])
    } by {
        assert(sorted[k] == sorted[k]);
        let at = choose|at: int| 0 <= at < items.len() && #[trigger] items[at] == sorted[k];
        assert(stands_for_id(cs, places[at] as int));
        assert(cs[places[at] as int] == r[k]);
    }
    assert forall|i: int, j: int| 0 <= i < j < r.len() implies key_less(
        instance_key(#[trigger] r[i]),
        instance_key(#[trigger] r[j]),
    ) by {
        assert(key_less(sorted[i].sort_key(), sorted[j].sort_key()));
    }
    assert forall|i: int, j: int| 0 <= i < j < r.len() implies #[trigger] r[i].id
        != #[trigger] r[j].id by {
        let a = choose|at: int| 0 <= at < items.len() && #[trigger] items[at] == sorted[i];
        let b = choose|at: int| 0 <= at < items.len() && #[trigger] items[at] == sorted[j];
        assert(key_less(sorted[i].sort_key(), sorted[j].sort_key()));
        crate::order::lemma_key_irreflexive(sorted[i].sort_key());
        assert(a != b);
        if a < b {
            assert(cs[places[a] as int].id != cs[places[b] as int].id);
        } else {
            assert(cs[places[b] as int].id != cs[places[a] as int].id);
        }
    }
    assert forall|i: int| #[trigger] reachable(cs, i) implies has_id(r, cs[i].id) by {
        let j = choose|j: int|
            0 <= j < places.len() && cs[#[trigger] places[j] as int].id == cs[i].id;
        assert(items[j].place == places[j]);
        assert(crate::order::has_key(sorted, items[j].sort_key()));
        let k = choose|k: int|
            0 <= k < sorted.len() && #[trigger] sorted[k].sort_key() == items[j].sort_key();
        let at = choose|at: int| 0 <= at < items.len() && #[trigger] items[at] == sorted[k];
        assert(items[at].id@ == items[j].id@);
        assert(r[k] == cs[sorted[k].place as int]);
        assert(r[k].id == cs[i].id);
    }
}

// ---------------------------------------------------------------------------
// Laws
// ---------------------------------------------------------------------------

/// The inventory is complete after a scan exactly if none of the container
/// backends failed; failures of the other backends do not matter.
pub proof fn partial_scans_fail_closed(before: CacheView, census: Census)
    ensures
        after_scan(before, census).container_inventory_error is Some <==> {
            ||| census.errors@.contains_key("docker"@)
            ||| census.errors@.contains_key("kubernetes"@)
            ||| census.errors@.contains_key("cri"@)
        },
{
}

/// A complete scan heals the cache: what an earlier scan lacked is forgotten.
pub proof fn complete_scan_heals(before: CacheView, census: Census)
    requires
        census.errors@ == Map::<Seq<char>, String>::empty(),
        before.epoch < u64::MAX,
    ensures
        after_scan(before, census).container_inventory_error is None,
        after_scan(before, census).epoch == before.epoch + 1,
{
}

/// An identifier that no container is known under, and whose prefix several ids
/// share, is refused, never guessed.
pub proof fn shared_prefixes_are_refused(
    cs: Seq<ContainerView>,
    identifier: Seq<char>,
    files: Set<Seq<char>>,
    r: MatchView,
)
    requires
        !some_alias(cs, identifier),
        prefix_ids(cs, identifier).len() > 1,
        container_resolution(cs, identifier, files, r),
    ensures
        r == MatchView::Ambiguous(prefix_ids(cs, identifier).len()),
{
}

/// A directive that names a workload resolves to that workload, whatever ids
/// its containers have now: if `c` is the last known under its stable id and
/// there is something to read, the match is with it, durable, and stands for
/// that very id.
pub proof fn stable_id_resolves_to_its_workload(
    cs: Seq<ContainerView>,
    at: int,
    files: Set<Seq<char>>,
    r: MatchView,
)
    requires
        0 <= at < cs.len(),
        last_with_alias(cs, cs[at].stable_id(), at),
        cs[at].log_locator(files).len() > 0,
        cs[at].stable_instance_id() == cs[at].stable_id(),
        container_resolution(cs, cs[at].stable_id(), files, r),
    ensures
        r is Matched,
        r->Matched_0.stable_identity == cs[at].stable_id(),
        r->Matched_0.access_locator == cs[at].log_locator(files),
        r->Matched_0.matched_via.durability() == Confidence::Explicit,
{
    assert(has_alias(cs[at], cs[at].stable_id()));
    assert(some_alias(cs, cs[at].stable_id()));
}

/// The same for one replica of a workload that has several.
pub proof fn instance_id_resolves_to_its_replica(
    cs: Seq<ContainerView>,
    at: int,
    files: Set<Seq<char>>,
    r: MatchView,
)
    requires
        0 <= at < cs.len(),
        last_with_alias(cs, cs[at].stable_instance_id(), at),
        cs[at].log_locator(files).len() > 0,
        cs[at].stable_instance_id() != cs[at].stable_id(),
        container_resolution(cs, cs[at].stable_instance_id(), files, r),
    ensures
        r is Matched,
        r->Matched_0.matched_via == MatchVia::StableInstanceId,
        r->Matched_0.stable_identity == cs[at].stable_instance_id(),
        r->Matched_0.access_locator == cs[at].log_locator(files),
{
    assert(has_alias(cs[at], cs[at].stable_instance_id()));
    assert(some_alias(cs, cs[at].stable_instance_id()));
}

/// An identifier resolves in one way only among containers.
proof fn lemma_container_resolution(
    cs: Seq<ContainerView>,
    identifier: Seq<char>,
    files: Set<Seq<char>>,
    a: MatchView,
    b: MatchView,
)
    requires
        container_resolution(cs, identifier, files, a),
        container_resolution(cs, identifier, files, b),
    ensures
        a == b,
{
    let ids = prefix_ids(cs, identifier);
    if some_alias(cs, identifier) {
        lemma_last_alias_exists(cs, identifier);
        let at = choose|at: int| #[trigger] last_with_alias(cs, identifier, at);
        assert(last_with_alias(cs, identifier, at));
    } else if ids.len() == 1 {
        let i = choose|i: int| #[trigger]
            stands_for_id(cs, i) && same_id_prefix(cs[i].id, identifier) && a == matched_container(
                cs[i],
                MatchVia::ContainerId,
                files,
            );
        let j = choose|j: int| #[trigger]
            stands_for_id(cs, j) && same_id_prefix(cs[j].id, identifier) && b == matched_container(
                cs[j],
                MatchVia::ContainerId,
                files,
            );
        assert(ids.contains(cs[i].id));
        assert(ids.contains(cs[j].id));
        lemma_ids_finite(cs, identifier);
        if cs[i].id != cs[j].id {
            let two = set![cs[i].id, cs[j].id];
            assert(two.subset_of(ids));
            vstd::set_lib::lemma_len_subset(two, ids);
            assert(two.len() == 2);
        }
        assert(reachable(cs, i) && reachable(cs, j));
        assert(i <= j && j <= i);
    }
}

/// An identifier resolves in one way only, however often it is looked up in a cache.
pub proof fn resolution_is_deterministic(
    cache: CacheView,
    identifier: Seq<char>,
    kind: Seq<char>,
    files: Set<Seq<char>>,
    a: MatchView,
    b: MatchView,
)
    requires
        resolution(cache, identifier, kind, files, a),
        resolution(cache, identifier, kind, files, b),
    ensures
        a == b,
{
    let cs = cache.containers;
    let none = MatchView::NotFound;
    if container_resolution(cs, identifier, files, a) && container_resolution(
        cs,
        identifier,
        files,
        b,
    ) {
        lemma_container_resolution(cs, identifier, files, a, b);
    }
    if container_resolution(cs, identifier, files, a) && container_resolution(
        cs,
        identifier,
        files,
        none,
    ) {
        lemma_container_resolution(cs, identifier, files, a, none);
    }
    if container_resolution(cs, identifier, files, b) && container_resolution(
        cs,
        identifier,
        files,
        none,
    ) {
        lemma_container_resolution(cs, identifier, files, b, none);
    }
}

/// The distinct containers of a cache are one list, in one order: what is derived from
/// them is the same after every scan that finds the same.
pub proof fn distinct_containers_are_determined(
    cs: Seq<ContainerView>,
    a: Seq<ContainerView>,
    b: Seq<ContainerView>,
)
    requires
        distinct(cs, a),
        distinct(cs, b),
    ensures
        a == b,
{
    lemma_same_members(cs, a, b);
    lemma_same_members(cs, b, a);
    lemma_ascending_is_determined(a, b);
}

/// Every distinct container of one list is in another.
proof fn lemma_same_members(
    cs: Seq<ContainerView>,
    a: Seq<ContainerView>,
    b: Seq<ContainerView>,
)
    requires
        distinct(cs, a),
        distinct(cs, b),
    ensures
        forall|i: int| 0 <= i < a.len() ==> b.contains(#[trigger] a[i]),
{
    assert forall|i: int| 0 <= i < a.len() implies b.contains(#[trigger] a[i]) by {
        assert(is_distinct(cs, a[i]));
        let p = choose|p: int| #[trigger] stands_for_id(cs, p) && cs[p] == a[i];
        assert(reachable(cs, p));
        assert(has_id(b, cs[p].id));
        let j = choose|j: int| 0 <= j < b.len() && #[trigger] b[j].id == cs[p].id;
        assert(b[j] == b[j]);
        assert(is_distinct(cs, b[j]));
        let q = choose|q: int| #[trigger] stands_for_id(cs, q) && cs[q] == b[j];
        assert(reachable(cs, q));
        assert(p <= q && q <= p);
        assert(b[j] == a[i]);
    }
}

/// Whether containers ascend in the order of their instances.
spec fn ascending(r: Seq<ContainerView>) -> bool {
    forall|i: int, j: int|
        0 <= i < j < r.len() ==> key_less(
            instance_key(#[trigger] r[i]),
            instance_key(#[trigger] r[j]),
        )
}

/// Two ascending lists of the same containers are one.
proof fn lemma_ascending_is_determined(a: Seq<ContainerView>, b: Seq<ContainerView>)
    requires
        ascending(a),
        ascending(b),
        forall|i: int| 0 <= i < a.len() ==> b.contains(#[trigger] a[i]),
        forall|i: int| 0 <= i < b.len() ==> a.contains(#[trigger] b[i]),
    ensures
        a == b,
    decreases a.len(),
{
    if a.len() == 0 {
        if b.len() > 0 {
            assert(a.contains(b[0]));
        }
        assert(a =~= b);
    } else {
        assert(b.contains(a[0]));
        let n = a.len() - 1;
        let m = b.len() - 1;
        assert(b.contains(a[n]));
        assert(a.contains(b[m]));
        let j = choose|j: int| 0 <= j < b.len() && b[j] == a[n];
        let i = choose|i: int| 0 <= i < a.len() && a[i] == b[m];
        if i < n && j < m {
            assert(key_less(instance_key(a[i]), instance_key(a[n])));
            assert(key_less(instance_key(b[j]), instance_key(b[m])));
            crate::order::lemma_key_transitive(
                instance_key(a[i]),
                instance_key(a[n]),
                instance_key(a[i]),
            );
            crate::order::lemma_key_irreflexive(instance_key(a[i]));
        }
        assert(a[n] == b[m]);
        let x = a.drop_last();
        let y = b.drop_last();
        assert forall|i: int| 0 <= i < x.len() implies y.contains(#[trigger] x[i]) by {
            assert(b.contains(a[i]));
            let k = choose|k: int| 0 <= k < b.len() && b[k] == a[i];
            assert(key_less(instance_key(a[i]), instance_key(a[n])));
            if k == m {
                crate::order::lemma_key_irreflexive(instance_key(a[n]));
            }
            assert(y[k] == x[i]);
        }
        assert forall|i: int| 0 <= i < y.len() implies x.contains(#[trigger] y[i]) by {
            assert(a.contains(b[i]));
            let k = choose|k: int| 0 <= k < a.len() && a[k] == b[i];
            assert(key_less(instance_key(b[i]), instance_key(b[m])));
            if k == n {
                crate::order::lemma_key_irreflexive(instance_key(b[m]));
            }
            assert(x[k] == y[i]);
        }
        assert(ascending(x)) by {
            assert forall|i: int, j: int| 0 <= i < j < x.len() implies key_less(
                instance_key(#[trigger] x[i]),
                instance_key(#[trigger] x[j]),
            ) by {
                assert(x[i] == a[i] && x[j] == a[j]);
            }
        }
        assert(ascending(y)) by {
            assert forall|i: int, j: int| 0 <= i < j < y.len() implies key_less(
                instance_key(#[trigger] y[i]),
                instance_key(#[trigger] y[j]),
            ) by {
                assert(y[i] == b[i] && y[j] == b[j]);
            }
        }
        lemma_ascending_is_determined(x, y);
        assert(a =~= x.push(a[n]));
        assert(b =~= y.push(b[m]));
    }
}

proof fn lemma_reachable_in_range(cs: Seq<ContainerView>, i: int)
    requires
        reachable(cs, i),
    ensures
        0 <= i < cs.len(),
{
    let key = choose|key: Seq<char>| #[trigger] last_with_alias(cs, key, i);
}

proof fn lemma_ids_finite(cs: Seq<ContainerView>, identifier: Seq<char>)
    ensures
        prefix_ids(cs, identifier).finite(),
{
    let all = cs.map_values(|c: ContainerView| c.id).to_set();
    assert(prefix_ids(cs, identifier).subset_of(all)) by {
        assert forall|id: Seq<char>| prefix_ids(cs, identifier).contains(id) implies all.contains(
            id,
        ) by {
            let i = choose|i: int| #[trigger] reachable(cs, i) && cs[i].id == id;
            lemma_reachable_in_range(cs, i);
            assert(cs.map_values(|c: ContainerView| c.id)[i] == id);
        }
    }
    vstd::set_lib::lemma_set_subset_finite(all, prefix_ids(cs, identifier));
}

impl Default for DiscoveryCache {
    fn default() -> (r: Self)
        ensures
            r@.containers == Seq::<ContainerView>::empty(),
            r@.files == Map::<Seq<char>, LogFile>::empty(),
            r@.systemd_services == Map::<Seq<char>, SystemdService>::empty(),
            r@.event_log_channels == Map::<Seq<char>, EventLogChannel>::empty(),
            r@.epoch == 0,
            r@.container_inventory_error is None,
    {
        DiscoveryCache::new()
    }
}

} // verus!
