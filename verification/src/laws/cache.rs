//! What identifiers resolve to after a scan, said of what the scan found.
use vstd::prelude::*;
use vstd::string::*;
use vstd::utf8::encode_utf8;

use crate::discovery::cache::{
    after_scan, channels_by_name, classified, container_resolution, container_views,
    files_by_path, has_alias, inventory_error, last_with_alias, loggable_type, prefix_ids,
    reachable, resolution, same_id_prefix, services_by_name, some_alias, stands_for_id, AccessView,
    CacheView, Confidence, MatchVia, MatchView,
};
use crate::discovery::census::Census;
use crate::discovery::container::{AccessMethod, ContainerView};
use crate::discovery::event_log::EventLogChannel;
use crate::discovery::files::LogFile;
use crate::discovery::systemd::SystemdService;
use crate::text::{occurs, stands_at};

verus! {

/// Whether a text is one of those that a container can be found by: its ids, its name,
/// its service's name, the path of its log, its stable identities, and its workload with
/// and without the container.
pub open spec fn carries(c: ContainerView, key: Seq<char>) -> bool {
    ||| key == c.id
    ||| key == c.container_id
    ||| key == c.name
    ||| key == c.service_name
    ||| key == c.log_path
    ||| key == c.stable_id()
    ||| key == c.stable_instance_id()
    ||| key == c.namespace + seq!['/'] + c.deployment
    ||| key == c.namespace + seq!['/'] + c.deployment + seq!['/'] + c.container_name
    ||| key == c.namespace + seq!['/'] + c.deployment + seq!['/'] + c.name
}

proof fn lemma_carries(c: ContainerView, key: Seq<char>)
    ensures
        has_alias(c, key) ==> carries(c, key),
{
    reveal_strlit("/");
    assert("/"@ =~= seq!['/']);
}

/// What a match with a container comes to: its reader, what it reads, and the identity
/// that it stands for; nothing where there is nothing to read.
pub open spec fn match_with(c: ContainerView, files: Set<Seq<char>>, m: MatchView) -> bool {
    if c.log_locator(files).len() == 0 {
        m == MatchView::NotFound
    } else {
        match m {
            MatchView::Matched(a) => {
                &&& a.access_method == c.access_method(files)
                &&& a.access_locator == c.log_locator(files)
                &&& a.stable_identity == c.stable_id() || (a.stable_identity
                    == c.stable_instance_id() && a.matched_via == MatchVia::StableInstanceId)
            },
            _ => false,
        }
    }
}

/// A container is found by each of its keys: its ids, its name, its service's name, the
/// path of its log and its stable identities, and in Kubernetes by its workload, with the
/// container's name or without. Of several the last one counts that the scan found.
pub proof fn containers_are_found_by_their_keys(
    before: CacheView,
    census: Census,
    at: int,
    key: Seq<char>,
    files: Set<Seq<char>>,
    m: MatchView,
)
    requires
        0 <= at < census.containers@.len(),
        key.len() > 0,
        ({
            let c = census.containers@[at]@;
            ||| key == c.id
            ||| key == c.container_id
            ||| key == c.name
            ||| key == c.service_name
            ||| key == c.log_path
            ||| key == c.stable_id()
            ||| key == c.stable_instance_id()
            ||| c.runtime == "kubernetes"@ && c.namespace.len() > 0 && c.deployment.len() > 0 && (
            key == c.namespace + seq!['/'] + c.deployment || key == c.namespace + seq!['/']
                + c.deployment + seq!['/'] + (if c.container_name.len() > 0 {
                c.container_name
            } else {
                c.name
            }))
        }),
        forall|i: int|
            at < i < census.containers@.len() ==> !carries(#[trigger] census.containers@[i]@, key),
        resolution(after_scan(before, census), key, "container"@, files, m),
    ensures
        match_with(census.containers@[at]@, files, m),
{
    reveal_strlit("/");
    assert("/"@ =~= seq!['/']);
    let cs = container_views(census.containers@);
    let c = cs[at];
    assert(c == census.containers@[at]@);
    assert(has_alias(c, key));
    assert forall|i: int| at < i < cs.len() implies !has_alias(#[trigger] cs[i], key) by {
        assert(cs[i] == census.containers@[i]@);
        assert(!carries(census.containers@[i]@, key));
        lemma_carries(cs[i], key);
    }
    assert(last_with_alias(cs, key, at));
    assert(some_alias(cs, key));
}

/// The same where nothing is said of the kind of loggable: a container with something to
/// read comes before files, services and channels.
pub proof fn containers_come_first(
    before: CacheView,
    census: Census,
    at: int,
    key: Seq<char>,
    kind: Seq<char>,
    files: Set<Seq<char>>,
    m: MatchView,
)
    requires
        0 <= at < census.containers@.len(),
        key.len() > 0,
        ({
            let c = census.containers@[at]@;
            ||| key == c.id
            ||| key == c.container_id
            ||| key == c.name
            ||| key == c.service_name
            ||| key == c.log_path
            ||| key == c.stable_id()
            ||| key == c.stable_instance_id()
        }),
        census.containers@[at]@.log_locator(files).len() > 0,
        forall|i: int|
            at < i < census.containers@.len() ==> !carries(#[trigger] census.containers@[i]@, key),
        kind != "container"@,
        kind != "file"@,
        kind != "systemd_service"@,
        kind != "journald"@,
        kind != "windows_event_log"@,
        resolution(after_scan(before, census), key, kind, files, m),
    ensures
        match_with(census.containers@[at]@, files, m),
{
    reveal_strlit("/");
    let cache = after_scan(before, census);
    assert("/"@ =~= seq!['/']);
    if container_resolution(cache.containers, key, files, MatchView::NotFound) {
        assert(resolution(cache, key, "container"@, files, MatchView::NotFound));
        containers_are_found_by_their_keys(before, census, at, key, files, MatchView::NotFound);
    } else {
        assert(resolution(cache, key, "container"@, files, m));
        containers_are_found_by_their_keys(before, census, at, key, files, m);
    }
}

/// What no container carries, and no id begins like, is not found among containers.
pub proof fn strangers_are_not_found(
    before: CacheView,
    census: Census,
    key: Seq<char>,
    files: Set<Seq<char>>,
    m: MatchView,
)
    requires
        forall|i: int|
            0 <= i < census.containers@.len() ==> !carries(#[trigger] census.containers@[i]@, key),
        encode_utf8(key).len() < 12 || forall|i: int|
            0 <= i < census.containers@.len() ==> encode_utf8(
                (#[trigger] census.containers@[i])@.id,
            ).len() < 12 || encode_utf8(census.containers@[i]@.id).take(12) != encode_utf8(
                key,
            ).take(12),
        resolution(after_scan(before, census), key, "container"@, files, m),
    ensures
        m == MatchView::NotFound,
{
    let cs = container_views(census.containers@);
    assert forall|i: int| 0 <= i < cs.len() implies !has_alias(#[trigger] cs[i], key) by {
        assert(cs[i] == census.containers@[i]@);
        assert(!carries(census.containers@[i]@, key));
        lemma_carries(cs[i], key);
    }
    assert(!some_alias(cs, key));
    let ids = prefix_ids(cs, key);
    assert forall|id: Seq<char>| !ids.contains(id) by {
        if ids.contains(id) {
            let i = choose|i: int| #[trigger] reachable(cs, i) && cs[i].id == id;
            let k = choose|k: Seq<char>| #[trigger] last_with_alias(cs, k, i);
            assert(cs[i] == census.containers@[i]@);
            assert(census.containers@[i]@.id == id);
        }
    }
    assert(ids =~= Set::empty());
}

/// A container is found by the first twelve bytes of its id, if no other id begins with
/// them and nobody carries the identifier as it is. Such a match is by the id.
pub proof fn ids_are_found_by_their_beginning(
    before: CacheView,
    census: Census,
    at: int,
    key: Seq<char>,
    files: Set<Seq<char>>,
    m: MatchView,
)
    requires
        0 <= at < census.containers@.len(),
        encode_utf8(key).len() >= 12,
        encode_utf8(census.containers@[at]@.id).len() >= 12,
        encode_utf8(census.containers@[at]@.id).take(12) == encode_utf8(key).take(12),
        forall|i: int|
            0 <= i < census.containers@.len() ==> !carries(#[trigger] census.containers@[i]@, key),
        forall|i: int|
            0 <= i < census.containers@.len() && i != at ==> encode_utf8(
                (#[trigger] census.containers@[i])@.id,
            ).len() < 12 || encode_utf8(census.containers@[i]@.id).take(12) != encode_utf8(
                key,
            ).take(12),
        forall|i: int|
            at < i < census.containers@.len() ==> !carries(
                #[trigger] census.containers@[i]@,
                census.containers@[at]@.id,
            ),
        resolution(after_scan(before, census), key, "container"@, files, m),
    ensures
        match_with(census.containers@[at]@, files, m),
        m is Matched ==> m->Matched_0.matched_via == MatchVia::ContainerId,
{
    let cs = container_views(census.containers@);
    let c = cs[at];
    assert(c == census.containers@[at]@);
    assert forall|i: int| 0 <= i < cs.len() implies !has_alias(#[trigger] cs[i], key) by {
        assert(cs[i] == census.containers@[i]@);
        assert(!carries(census.containers@[i]@, key));
        lemma_carries(cs[i], key);
    }
    assert(!some_alias(cs, key));
    assert forall|i: int| at < i < cs.len() implies !has_alias(#[trigger] cs[i], c.id) by {
        assert(cs[i] == census.containers@[i]@);
        assert(!carries(census.containers@[i]@, c.id));
        lemma_carries(cs[i], c.id);
    }
    assert(last_with_alias(cs, c.id, at));
    assert(reachable(cs, at));
    let ids = prefix_ids(cs, key);
    assert forall|id: Seq<char>| ids.contains(id) <==> id == c.id by {
        if ids.contains(id) {
            let i = choose|i: int| #[trigger] reachable(cs, i) && cs[i].id == id;
            let k = choose|k: Seq<char>| #[trigger] last_with_alias(cs, k, i);
            assert(cs[i] == census.containers@[i]@);
            assert(census.containers@[i]@.id == id);
        }
    }
    assert(ids =~= Set::empty().insert(c.id));
    assert(ids.len() == 1);
    let i = choose|i: int| #[trigger]
        stands_for_id(cs, i) && same_id_prefix(cs[i].id, key) && m
            == crate::discovery::cache::matched_container(cs[i], MatchVia::ContainerId, files);
    let k = choose|k: Seq<char>| #[trigger] last_with_alias(cs, k, i);
    assert(cs[i] == census.containers@[i]@);
    assert(i == at) by {
        assert(encode_utf8(census.containers@[i]@.id).take(12) == encode_utf8(key).take(12));
    }
}

/// By which key a container was found: an identity counts before an id, an id before a
/// name, a name before a service.
pub proof fn keys_are_told_apart(c: ContainerView, key: Seq<char>)
    ensures
        key == c.stable_instance_id() && key != c.stable_id() ==> classified(c, key)
            == MatchVia::StableInstanceId,
        key == c.stable_id() ==> classified(c, key) == MatchVia::StableId,
        key != c.stable_id() && key != c.stable_instance_id() ==> {
            &&& key == c.id || key == c.container_id ==> classified(c, key)
                == MatchVia::ContainerId
            &&& key != c.id && key != c.container_id && key == c.name ==> classified(c, key)
                == MatchVia::ContainerName
            &&& key != c.id && key != c.container_id && key != c.name && key == c.service_name
                ==> classified(c, key) == MatchVia::ServiceName
            &&& key != c.id && key != c.container_id && key != c.name && key != c.service_name
                && key.contains('/') ==> classified(c, key) == MatchVia::StableId
            &&& key != c.id && key != c.container_id && key != c.name && key != c.service_name
                && !key.contains('/') ==> classified(c, key) == MatchVia::ContainerName
        },
{
    reveal_strlit("/");
    assert("/"@ =~= seq!['/']);
    if key.contains('/') {
        let i = choose|i: int| 0 <= i < key.len() && key[i] == '/';
        assert(key.subrange(i, i + 1) =~= "/"@);
        assert(stands_at(key, "/"@, i));
    }
    if occurs(key, "/"@) {
        let at = choose|at: int| #[trigger] stands_at(key, "/"@, at);
        assert(key.subrange(at, at + 1)[0] == '/');
        assert(key[at] == '/');
    }
}

/// A container that is found by one of its keys is matched by that kind of key.
pub proof fn matches_say_by_which_key(
    before: CacheView,
    census: Census,
    at: int,
    key: Seq<char>,
    files: Set<Seq<char>>,
    m: MatchView,
)
    requires
        0 <= at < census.containers@.len(),
        key.len() > 0,
        ({
            let c = census.containers@[at]@;
            ||| key == c.id
            ||| key == c.name
            ||| key == c.service_name
            ||| key == c.stable_id()
            ||| key == c.stable_instance_id()
        }),
        forall|i: int|
            at < i < census.containers@.len() ==> !carries(#[trigger] census.containers@[i]@, key),
        resolution(after_scan(before, census), key, "container"@, files, MatchView::Matched(
            m->Matched_0,
        )),
        m is Matched,
    ensures
        m->Matched_0.matched_via == classified(census.containers@[at]@, key),
        key == census.containers@[at]@.stable_instance_id() ==> m->Matched_0.stable_identity
            == key,
{
    reveal_strlit("/");
    assert("/"@ =~= seq!['/']);
    let cs = container_views(census.containers@);
    let c = cs[at];
    assert(c == census.containers@[at]@);
    assert(has_alias(c, key));
    assert forall|i: int| at < i < cs.len() implies !has_alias(#[trigger] cs[i], key) by {
        assert(cs[i] == census.containers@[i]@);
        assert(!carries(census.containers@[i]@, key));
        lemma_carries(cs[i], key);
    }
    assert(last_with_alias(cs, key, at));
    assert(some_alias(cs, key));
}

// ---------------------------------------------------------------------------
// Files, services and channels
// ---------------------------------------------------------------------------

proof fn lemma_file(files: Seq<LogFile>, at: int)
    requires
        0 <= at < files.len(),
        forall|i: int| at < i < files.len() ==> (#[trigger] files[i]).path@ != files[at].path@,
    ensures
        files_by_path(files).contains_key(files[at].path@),
        files_by_path(files)[files[at].path@] == files[at],
    decreases files.len(),
{
    if at < files.len() - 1 {
        let front = files.drop_last();
        assert(front[at] == files[at]);
        assert forall|i: int| at < i < front.len() implies (#[trigger] front[i]).path@
            != front[at].path@ by {
            assert(front[i] == files[i]);
        }
        lemma_file(front, at);
        assert(files[files.len() - 1].path@ != files[at].path@);
    }
}

proof fn lemma_no_file(files: Seq<LogFile>, path: Seq<char>)
    requires
        forall|i: int| 0 <= i < files.len() ==> (#[trigger] files[i]).path@ != path,
    ensures
        !files_by_path(files).contains_key(path),
    decreases files.len(),
{
    if files.len() > 0 {
        assert(files[files.len() - 1].path@ != path);
        assert forall|i: int| 0 <= i < files.drop_last().len() implies (
        #[trigger] files.drop_last()[i]).path@ != path by {
            assert(files.drop_last()[i] == files[i]);
        }
        lemma_no_file(files.drop_last(), path);
    }
}

/// A file is found by its path if it can be read, and read as a file at that path.
pub proof fn files_are_found_by_their_path(
    before: CacheView,
    census: Census,
    at: int,
    path: Seq<char>,
    files: Set<Seq<char>>,
    m: MatchView,
)
    requires
        resolution(after_scan(before, census), path, "file"@, files, m),
    ensures
        0 <= at < census.log_files@.len() && census.log_files@[at].path@ == path && (forall|i: int|
            at < i < census.log_files@.len() ==> (#[trigger] census.log_files@[i]).path@ != path)
            ==> m == if census.log_files@[at].readable {
            MatchView::Matched(
                AccessView {
                    access_method: AccessMethod::File,
                    matched_via: MatchVia::FilePath,
                    stable_identity: path,
                    access_locator: path,
                },
            )
        } else {
            MatchView::NotFound
        },
        (forall|i: int|
            0 <= i < census.log_files@.len() ==> (#[trigger] census.log_files@[i]).path@ != path)
            ==> m == MatchView::NotFound,
{
    lemma_kinds_differ();
    let all = census.log_files@;
    if 0 <= at < all.len() && all[at].path@ == path && (forall|i: int|
        at < i < all.len() ==> (#[trigger] all[i]).path@ != path) {
        lemma_file(all, at);
    }
    if forall|i: int| 0 <= i < all.len() ==> (#[trigger] all[i]).path@ != path {
        lemma_no_file(all, path);
    }
}

proof fn lemma_kinds_differ()
    ensures
        "container"@.len() == 9,
        "file"@.len() == 4,
        "systemd_service"@.len() == 15,
        "journald"@.len() == 8,
        "windows_event_log"@.len() == 17,
        ""@.len() == 0,
{
    reveal_strlit("container");
    reveal_strlit("file");
    reveal_strlit("systemd_service");
    reveal_strlit("journald");
    reveal_strlit("windows_event_log");
    reveal_strlit("");
}

/// Whether a service is known by a name: its unit's, or its own.
pub open spec fn service_has(s: SystemdService, name: Seq<char>) -> bool {
    s.name@ == name || (s.service_name@.len() > 0 && s.service_name@ == name)
}

proof fn lemma_service(services: Seq<SystemdService>, at: int, name: Seq<char>)
    requires
        0 <= at < services.len(),
        service_has(services[at], name),
        forall|i: int| at < i < services.len() ==> !service_has(#[trigger] services[i], name),
    ensures
        services_by_name(services).contains_key(name),
        services_by_name(services)[name] == services[at],
    decreases services.len(),
{
    if at < services.len() - 1 {
        let front = services.drop_last();
        assert(front[at] == services[at]);
        assert forall|i: int| at < i < front.len() implies !service_has(#[trigger] front[i], name) by {
            assert(front[i] == services[i]);
        }
        lemma_service(front, at, name);
        assert(!service_has(services[services.len() - 1], name));
    }
}

proof fn lemma_no_service(services: Seq<SystemdService>, name: Seq<char>)
    requires
        forall|i: int| 0 <= i < services.len() ==> !service_has(#[trigger] services[i], name),
    ensures
        !services_by_name(services).contains_key(name),
    decreases services.len(),
{
    if services.len() > 0 {
        assert(!service_has(services[services.len() - 1], name));
        assert forall|i: int| 0 <= i < services.drop_last().len() implies !service_has(
            #[trigger] services.drop_last()[i],
            name,
        ) by {
            assert(services.drop_last()[i] == services[i]);
        }
        lemma_no_service(services.drop_last(), name);
    }
}

/// A loaded service unit is found by the unit's name or by the service's, and read from
/// the journal under the unit's name.
pub proof fn units_are_found_by_their_names(
    before: CacheView,
    census: Census,
    at: int,
    name: Seq<char>,
    kind: Seq<char>,
    files: Set<Seq<char>>,
    m: MatchView,
)
    requires
        kind == "systemd_service"@ || kind == "journald"@,
        resolution(after_scan(before, census), name, kind, files, m),
    ensures
        0 <= at < census.systemd_services@.len() && service_has(census.systemd_services@[at], name)
            && (forall|i: int|
            at < i < census.systemd_services@.len() ==> !service_has(
                #[trigger] census.systemd_services@[i],
                name,
            )) ==> {
            let s = census.systemd_services@[at];
            m == if s.load_state@ == "loaded"@ && ".service"@.is_suffix_of(s.name@) {
                MatchView::Matched(
                    AccessView {
                        access_method: AccessMethod::Journald,
                        matched_via: MatchVia::SystemdUnit,
                        stable_identity: s.name@,
                        access_locator: s.name@,
                    },
                )
            } else {
                MatchView::NotFound
            }
        },
        (forall|i: int|
            0 <= i < census.systemd_services@.len() ==> !service_has(
                #[trigger] census.systemd_services@[i],
                name,
            )) ==> m == MatchView::NotFound,
{
    lemma_kinds_differ();
    let all = census.systemd_services@;
    if 0 <= at < all.len() && service_has(all[at], name) && (forall|i: int|
        at < i < all.len() ==> !service_has(#[trigger] all[i], name)) {
        lemma_service(all, at, name);
    }
    if forall|i: int| 0 <= i < all.len() ==> !service_has(#[trigger] all[i], name) {
        lemma_no_service(all, name);
    }
}

proof fn lemma_channel(channels: Seq<EventLogChannel>, name: Seq<char>)
    ensures
        channels_by_name(channels).contains_key(name) <==> exists|i: int|
            0 <= i < channels.len() && (#[trigger] channels[i]).channel@ == name,
        channels_by_name(channels).contains_key(name) ==> channels_by_name(channels)[name].channel@
            == name,
    decreases channels.len(),
{
    if channels.len() > 0 {
        let front = channels.drop_last();
        lemma_channel(front, name);
        if exists|i: int| 0 <= i < front.len() && (#[trigger] front[i]).channel@ == name {
            let i = choose|i: int| 0 <= i < front.len() && (#[trigger] front[i]).channel@ == name;
            assert(channels[i].channel@ == name);
        }
        if exists|i: int| 0 <= i < channels.len() && (#[trigger] channels[i]).channel@ == name {
            let i = choose|i: int|
                0 <= i < channels.len() && (#[trigger] channels[i]).channel@ == name;
            if i < front.len() {
                assert(front[i].channel@ == name);
            }
        }
        if channels.last().channel@ == name {
            assert(channels[channels.len() - 1].channel@ == name);
        }
    }
}

/// A channel of the event log is found by its name, if the scan saw it.
pub proof fn channels_are_found_by_their_name(
    before: CacheView,
    census: Census,
    name: Seq<char>,
    files: Set<Seq<char>>,
    m: MatchView,
)
    requires
        resolution(after_scan(before, census), name, "windows_event_log"@, files, m),
    ensures
        m == if exists|i: int|
            0 <= i < census.event_log_channels@.len() && (
            #[trigger] census.event_log_channels@[i]).channel@ == name {
            MatchView::Matched(
                AccessView {
                    access_method: AccessMethod::WindowsEventLog,
                    matched_via: MatchVia::WindowsEventLog,
                    stable_identity: name,
                    access_locator: name,
                },
            )
        } else {
            MatchView::NotFound
        },
{
    lemma_kinds_differ();
    lemma_channel(census.event_log_channels@, name);
}

/// Where nothing is said of the kind and no container fits, a readable file comes before
/// a loaded unit, and a unit before a channel.
pub proof fn files_come_before_units(
    cache: CacheView,
    identifier: Seq<char>,
    files: Set<Seq<char>>,
    m: MatchView,
    file: MatchView,
    unit: MatchView,
    channel: MatchView,
)
    requires
        resolution(cache, identifier, ""@, files, m),
        container_resolution(cache.containers, identifier, files, MatchView::NotFound),
        resolution(cache, identifier, "file"@, files, file),
        resolution(cache, identifier, "systemd_service"@, files, unit),
        resolution(cache, identifier, "windows_event_log"@, files, channel),
    ensures
        m == if file is Matched {
            file
        } else if unit is Matched {
            unit
        } else {
            channel
        },
{
    lemma_kinds_differ();
    if container_resolution(cache.containers, identifier, files, m) {
        assert(resolution(cache, identifier, "container"@, files, m));
        crate::discovery::cache::resolution_is_deterministic(
            cache,
            identifier,
            "container"@,
            files,
            m,
            MatchView::NotFound,
        );
    }
}

/// Each matching strategy looks for its own kind of loggable.
pub proof fn strategies_look_for_their_kind()
    ensures
        loggable_type("env_var"@) == "container"@,
        loggable_type("container_name"@) == "container"@,
        loggable_type("container_id"@) == "container"@,
        loggable_type("stable_id"@) == "container"@,
        loggable_type("stable_instance_id"@) == "container"@,
        loggable_type("log_path"@) == "container"@,
        loggable_type("image"@) == "container"@,
        loggable_type("systemd_unit"@) == "systemd_service"@,
        loggable_type("file_path"@) == "file"@,
        loggable_type("windows_event_log"@) == "windows_event_log"@,
        forall|s: Seq<char>|
            s != "env_var"@ && s != "container_name"@ && s != "container_id"@ && s != "stable_id"@
                && s != "stable_instance_id"@ && s != "log_path"@ && s != "image"@ && s
                != "systemd_unit"@ && s != "file_path"@ && s != "windows_event_log"@
                ==> #[trigger] loggable_type(s) == ""@,
{
    reveal_strlit("env_var");
    reveal_strlit("container_name");
    reveal_strlit("container_id");
    reveal_strlit("stable_id");
    reveal_strlit("stable_instance_id");
    reveal_strlit("log_path");
    reveal_strlit("image");
    reveal_strlit("systemd_unit");
    reveal_strlit("file_path");
    reveal_strlit("windows_event_log");
    assert("env_var"@.len() == 7 && "container_name"@.len() == 14 && "container_id"@.len() == 12
        && "stable_id"@.len() == 9 && "stable_instance_id"@.len() == 18 && "log_path"@.len() == 8
        && "image"@.len() == 5 && "systemd_unit"@.len() == 12 && "file_path"@.len() == 9
        && "windows_event_log"@.len() == 17);
    assert("stable_id"@[0] == 's' && "file_path"@[0] == 'f');
    assert("container_id"@[0] == 'c' && "systemd_unit"@[0] == 's');
}

/// The keys have their names on the wire, and identities count for more than names, names
/// for more than ids.
pub proof fn keys_have_their_names()
    ensures
        MatchVia::StableInstanceId.name() == "stable_instance_id"@,
        MatchVia::StableId.name() == "stable_id"@,
        MatchVia::ServiceName.name() == "service_name"@,
        MatchVia::ContainerName.name() == "container_name"@,
        MatchVia::ContainerId.name() == "container_id"@,
        MatchVia::SystemdUnit.name() == "systemd_unit"@,
        MatchVia::FilePath.name() == "file_path"@,
        MatchVia::WindowsEventLog.name() == "windows_event_log"@,
        Confidence::Explicit.name() == "explicit"@,
        Confidence::Strong.name() == "strong"@,
        Confidence::Weak.name() == "weak"@,
        forall|via: MatchVia|
            #[trigger] via.durability() == if via == MatchVia::ContainerId {
                Confidence::Weak
            } else if via == MatchVia::StableInstanceId || via == MatchVia::StableId || via
                == MatchVia::ServiceName {
                Confidence::Explicit
            } else {
                Confidence::Strong
            },
{
}

/// The inventory of containers is complete unless a container backend failed, and the
/// error names those that did.
pub proof fn inventories_name_what_failed(errors: Set<Seq<char>>)
    ensures
        !errors.contains("docker"@) && !errors.contains("kubernetes"@) && !errors.contains("cri"@)
            <==> inventory_error(errors) is None,
        ({
            let head = "container discovery failed: "@;
            let sep = ", "@;
            &&& errors.contains("docker"@) && !errors.contains("kubernetes"@) && !errors.contains(
                "cri"@,
            ) ==> inventory_error(errors) == Some(head + "docker"@)
            &&& !errors.contains("docker"@) && errors.contains("kubernetes"@) && !errors.contains(
                "cri"@,
            ) ==> inventory_error(errors) == Some(head + "kubernetes"@)
            &&& !errors.contains("docker"@) && !errors.contains("kubernetes"@) && errors.contains(
                "cri"@,
            ) ==> inventory_error(errors) == Some(head + "cri"@)
            &&& errors.contains("docker"@) && errors.contains("kubernetes"@) && !errors.contains(
                "cri"@,
            ) ==> inventory_error(errors) == Some(head + ("docker"@ + sep + "kubernetes"@))
            &&& errors.contains("docker"@) && !errors.contains("kubernetes"@) && errors.contains(
                "cri"@,
            ) ==> inventory_error(errors) == Some(head + ("docker"@ + sep + "cri"@))
            &&& !errors.contains("docker"@) && errors.contains("kubernetes"@) && errors.contains(
                "cri"@,
            ) ==> inventory_error(errors) == Some(head + ("kubernetes"@ + sep + "cri"@))
            &&& errors.contains("docker"@) && errors.contains("kubernetes"@) && errors.contains(
                "cri"@,
            ) ==> inventory_error(errors) == Some(
                head + ("docker"@ + sep + "kubernetes"@ + sep + "cri"@),
            )
        }),
{
}

} // verus!
