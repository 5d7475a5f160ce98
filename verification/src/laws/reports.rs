//! What is reported of a scan, said of what the scan found.
use vstd::prelude::*;
use vstd::string::*;

use crate::agent::{
    after_changes, after_step, change_lanes, channel_entry, discovery_list, file_entry,
    identifier_list, is_change_payload, is_workload_entry, port_entry, process_entry, reported,
    routed, snapshot_lanes, snapshot_payload, stopped_ids, stopped_workload_list, unit_entry, Cycle,
    InventoryReport, Lane, LaneReply, ScanEffect, Step, StoppedWorkload,
};
use crate::census_entries::{
    are_instances, is_container_entry, is_instance_entry, is_live_instance, is_service_entry,
    writes_map,
};
use crate::config::fields::texts_in;
use crate::config::unified::UnifiedConfig;
use crate::discovery::census::{backend_errors, found, BackendResults, Census};
use crate::discovery::container::ContainerView;
use crate::discovery::event_log::EventLogChannel;
use crate::discovery::files::LogFile;
use crate::discovery::ports::ListeningPort;
use crate::discovery::processes::Process;
use crate::discovery::systemd::SystemdService;
use crate::json::JsonView;
use crate::laws::text::the_last_one_is_found;
use crate::order::{key_less, lex_less};
use crate::seqs::kept;

verus! {

/// Whether an object has an entry.
pub open spec fn has(v: JsonView, key: Seq<char>, value: JsonView) -> bool {
    v is Object && v->Object_0.contains((key, value))
}

/// Whether an object holds a text under a key.
pub open spec fn has_text(v: JsonView, key: Seq<char>, text: Seq<char>) -> bool {
    has(v, key, JsonView::Text(text))
}

/// Whether an object holds a map of texts under a key, whole and nothing else.
pub open spec fn has_map(v: JsonView, key: Seq<char>, m: Map<Seq<char>, Seq<char>>) -> bool {
    v is Object && exists|i: int|
        0 <= i < v->Object_0.len() && (#[trigger] v->Object_0[i]).0 == key && writes_map(
            v->Object_0[i].1,
            m,
        )
}

// ---------------------------------------------------------------------------
// Census
// ---------------------------------------------------------------------------

/// A backend has an error in the census just if it failed, under its own name, and what it
/// found counts whatever became of the others.
pub proof fn failed_backends_are_named(b: BackendResults)
    ensures
        ({
            let e = backend_errors(b);
            &&& e.contains_key("docker"@) <==> b.docker is Err
            &&& e.contains_key("kubernetes"@) <==> b.kubernetes is Err
            &&& e.contains_key("cri"@) <==> b.cri is Err
            &&& e.contains_key("files"@) <==> b.files is Err
            &&& e.contains_key("systemd"@) <==> b.systemd is Err
            &&& e.contains_key("event_log_channels"@) <==> b.event_log is Err
            &&& e.contains_key("processes"@) <==> b.processes is Err
            &&& e.contains_key("ports"@) <==> b.ports is Err
            &&& e.contains_key("packages"@) <==> b.packages is Err
            &&& b.docker is Err ==> e["docker"@] == b.docker->Err_0@
            &&& b.kubernetes is Err ==> e["kubernetes"@] == b.kubernetes->Err_0@
            &&& b.cri is Err ==> e["cri"@] == b.cri->Err_0@
            &&& b.files is Err ==> e["files"@] == b.files->Err_0@
            &&& b.systemd is Err ==> e["systemd"@] == b.systemd->Err_0@
            &&& b.event_log is Err ==> e["event_log_channels"@] == b.event_log->Err_0@
            &&& b.processes is Err ==> e["processes"@] == b.processes->Err_0@
            &&& b.ports is Err ==> e["ports"@] == b.ports->Err_0@
            &&& b.packages is Err ==> e["packages"@] == b.packages->Err_0@
        }),
        b.docker is Ok ==> found(b.docker) == b.docker->Ok_0@,
        b.docker is Err ==> found(b.docker).len() == 0,
        b.cri is Ok ==> found(b.cri) == b.cri->Ok_0@,
        b.files is Ok ==> found(b.files) == b.files->Ok_0@,
{
    reveal_strlit("docker");
    reveal_strlit("kubernetes");
    reveal_strlit("cri");
    reveal_strlit("files");
    reveal_strlit("systemd");
    reveal_strlit("event_log_channels");
    reveal_strlit("processes");
    reveal_strlit("ports");
    reveal_strlit("packages");
    assert("docker"@.len() == 6 && "kubernetes"@.len() == 10 && "cri"@.len() == 3 && "files"@.len()
        == 5 && "systemd"@.len() == 7 && "event_log_channels"@.len() == 18 && "processes"@.len()
        == 9 && "ports"@.len() == 5 && "packages"@.len() == 8);
    assert("files"@[0] == 'f' && "ports"@[0] == 'p');
}

/// A list in the section of discovery counts if it names something, else the usual one.
pub proof fn scans_follow_their_section(
    config: &UnifiedConfig,
    section: JsonView,
    field: Seq<char>,
    usual: Seq<Seq<char>>,
)
    ensures
        discovery_list(None, field, usual) == usual,
        config.raw@.get("discovery"@) is None ==> discovery_list(Some(config), field, usual)
            == usual,
        config.raw@.get("discovery"@) == Some(section) && texts_in(section, field).len() > 0
            ==> discovery_list(Some(config), field, usual) == texts_in(section, field),
        config.raw@.get("discovery"@) == Some(section) && texts_in(section, field).len() == 0
            ==> discovery_list(Some(config), field, usual) == usual,
{
}

// ---------------------------------------------------------------------------
// Entries
// ---------------------------------------------------------------------------

/// A service is reported with what is stable of it, each under its name.
pub proof fn services_are_reported_with_their_facts(v: JsonView, c: ContainerView)
    requires
        is_service_entry(v, c),
    ensures
        has_text(v, "service_name"@, c.service_name),
        has(v, "service_name_explicit"@, JsonView::Bool(true)),
        has_text(v, "stable_instance_id"@, c.stable_instance_id()),
        has_text(v, "container_name"@, c.name),
        has_text(v, "image"@, c.image),
        has_text(v, "state"@, c.state),
        has_text(v, "namespace"@, c.namespace),
        has_text(v, "deployment"@, c.deployment),
        has_text(v, "format"@, c.log_format),
        has_map(v, "labels"@, c.labels),
        has_map(v, "identifiers"@, c.identifier_set()),
        v->Object_0.len() == 11,
{
    let e = v->Object_0;
    assert(e.contains(e[0]) && e.contains(e[1]) && e.contains(e[2]) && e.contains(e[4])
        && e.contains(e[6]) && e.contains(e[7]) && e.contains(e[8]) && e.contains(e[9])
        && e.contains(e[10]));
    assert(writes_map(e[3].1, c.identifier_set()) && e[3].0 == "identifiers"@);
    assert(writes_map(e[5].1, c.labels) && e[5].0 == "labels"@);
}

/// A workload is reported with what is stable of it, each under its name, and with its
/// running instances.
pub proof fn workloads_are_reported_with_their_facts(
    v: JsonView,
    c: ContainerView,
    instances: Seq<ContainerView>,
    i: int,
)
    requires
        is_container_entry(v, c, instances),
    ensures
        has_text(v, "identifier"@, c.stable_id()),
        has_text(v, "service_name"@, c.service_name),
        has_text(v, "stable_instance_id"@, c.stable_instance_id()),
        has_text(v, "container_name"@, c.name),
        has_text(v, "image"@, c.image),
        has_text(v, "state"@, c.state),
        has_text(v, "namespace"@, c.namespace),
        has_text(v, "deployment"@, c.deployment),
        has_text(v, "format"@, c.log_format),
        has_map(v, "labels"@, c.labels),
        has_map(v, "identifiers"@, c.identifier_set()),
        v->Object_0.len() == 12,
        v->Object_0[0].0 == "active_instances"@,
        v->Object_0[0].1 is Array,
        v->Object_0[0].1->Array_0.len() == instances.len(),
        0 <= i < instances.len() ==> {
            let one = v->Object_0[0].1->Array_0[i];
            &&& has_text(one, "stable_instance_id"@, instances[i].stable_instance_id())
            &&& has_text(one, "state"@, instances[i].state)
            &&& has_text(one, "log_path"@, instances[i].log_path)
            &&& has_map(one, "identifiers"@, instances[i].identifier_set())
        },
{
    let e = v->Object_0;
    assert(e.contains(e[1]) && e.contains(e[2]) && e.contains(e[3]) && e.contains(e[4])
        && e.contains(e[6]) && e.contains(e[8]) && e.contains(e[9]) && e.contains(e[10])
        && e.contains(e[11]));
    assert(writes_map(e[5].1, c.identifier_set()) && e[5].0 == "identifiers"@);
    assert(writes_map(e[7].1, c.labels) && e[7].0 == "labels"@);
    if 0 <= i < instances.len() {
        let one = e[0].1->Array_0[i];
        assert(is_instance_entry(one, instances[i]));
        let o = one->Object_0;
        assert(o.contains(o[1]) && o.contains(o[2]) && o.contains(o[3]));
        assert(writes_map(o[0].1, instances[i].identifier_set()) && o[0].0 == "identifiers"@);
    }
}

/// An instance of a workload is a running container of the same stable id that nobody named
/// a service; instances come in the order of their stable ids.
pub proof fn instances_are_running(
    discovered: Seq<ContainerView>,
    workload: Seq<char>,
    instances: Seq<ContainerView>,
    i: int,
    at: int,
    j: int,
)
    requires
        are_instances(discovered, workload, instances),
    ensures
        0 <= i < instances.len() ==> {
            let c = instances[i];
            &&& discovered.contains(c)
            &&& c.state == "running"@
            &&& c.stable_id() == workload
            &&& !(c.service_name_explicit && c.service_name.len() > 0)
        },
        0 <= at < discovered.len() && discovered[at].state == "running"@
            && discovered[at].stable_id() == workload && !(discovered[at].service_name_explicit
            && discovered[at].service_name.len() > 0) ==> instances.contains(discovered[at]),
        0 <= i < j < instances.len() ==> instances[i].stable_instance_id()
            == instances[j].stable_instance_id() || lex_less(
            instances[i].stable_instance_id(),
            instances[j].stable_instance_id(),
        ),
{
    let places = choose|places: Seq<int>| #[trigger]
        crate::census_entries::instance_order(discovered, workload, places) && instances
            == crate::census_entries::at_places(discovered, places);
    if 0 <= i < instances.len() {
        assert(instances[i] == discovered[places[i]]);
        assert(is_live_instance(discovered[places[i]], workload));
    }
    if 0 <= at < discovered.len() && is_live_instance(discovered[at], workload) {
        assert(places.contains(at));
        let k = choose|k: int| 0 <= k < places.len() && places[k] == at;
        assert(instances[k] == discovered[at]);
    }
    if 0 <= i < j < instances.len() {
        assert(key_less(
            crate::census_entries::instance_key(discovered, places[i]),
            crate::census_entries::instance_key(discovered, places[j]),
        ));
        assert(instances[i] == discovered[places[i]] && instances[j] == discovered[places[j]]);
    }
}

/// A log file is reported with its path, its name behind the last slash, and what was seen
/// of it.
pub proof fn files_are_reported_with_their_facts(f: LogFile, dir: Seq<char>, name: Seq<char>)
    requires
        forall|i: int| 0 <= i < name.len() ==> #[trigger] name[i] != '/',
    ensures
        ({
            let v = file_entry(f);
            &&& has_text(v, "path"@, f.path@)
            &&& has_text(v, "identifier"@, f.path@)
            &&& f.path@ == dir + seq!['/'] + name ==> has_text(v, "name"@, name)
            &&& f.path@ == name ==> has_text(v, "name"@, name)
            &&& has_text(v, "format"@, f.format@)
            &&& has_text(v, "modified"@, f.modified@)
            &&& has_text(v, "permissions"@, f.permissions@)
            &&& has_text(v, "state"@, "active"@)
            &&& has(v, "size"@, JsonView::Unsigned(f.size))
            &&& has(v, "line_count"@, JsonView::Unsigned(f.line_count))
            &&& v->Object_0.len() == 9
        }),
{
    let e = file_entry(f)->Object_0;
    the_last_one_is_found(dir, '/', name);
    assert((dir + seq!['/'] + name).skip(dir.len() as int + 1) =~= name);
    assert(name.skip(0) =~= name);
    assert(e.contains(e[0]) && e.contains(e[1]) && e.contains(e[2]) && e.contains(e[3])
        && e.contains(e[4]) && e.contains(e[5]) && e.contains(e[6]) && e.contains(e[7])
        && e.contains(e[8]));
}

/// A unit, a process, a port and a channel are reported with what was seen of them, each
/// under its name.
pub proof fn other_finds_are_reported_with_their_facts(
    s: SystemdService,
    p: Process,
    l: ListeningPort,
    c: EventLogChannel,
)
    ensures
        has_text(unit_entry(s), "unit_name"@, s.name@),
        has_text(unit_entry(s), "identifier"@, s.name@),
        has_text(unit_entry(s), "load_state"@, s.load_state@),
        has_text(unit_entry(s), "active_state"@, s.active_state@),
        has_text(unit_entry(s), "sub_state"@, s.sub_state@),
        has(process_entry(p), "pid"@, JsonView::Unsigned(p.pid as u64)),
        has_text(process_entry(p), "user"@, p.user@),
        has_text(process_entry(p), "command"@, p.command@),
        has_text(process_entry(p), "cpu"@, p.cpu@),
        has_text(process_entry(p), "mem"@, p.mem@),
        has(port_entry(l), "port"@, JsonView::Unsigned(l.port as u64)),
        has(port_entry(l), "pid"@, JsonView::Unsigned(l.pid as u64)),
        has_text(port_entry(l), "process"@, l.process@),
        has_text(port_entry(l), "protocol"@, l.protocol@),
        has_text(channel_entry(c), "channel"@, c.channel@),
        has_text(channel_entry(c), "identifier"@, c.channel@),
        has(channel_entry(c), "record_count"@, JsonView::Unsigned(c.record_count)),
{
    let a = unit_entry(s)->Object_0;
    let b = process_entry(p)->Object_0;
    let d = port_entry(l)->Object_0;
    let e = channel_entry(c)->Object_0;
    assert(a.contains(a[0]) && a.contains(a[1]) && a.contains(a[2]) && a.contains(a[3])
        && a.contains(a[4]));
    assert(b.contains(b[0]) && b.contains(b[1]) && b.contains(b[2]) && b.contains(b[3])
        && b.contains(b[4]));
    assert(d.contains(d[0]) && d.contains(d[1]) && d.contains(d[2]) && d.contains(d[3]));
    assert(e.contains(e[0]) && e.contains(e[1]) && e.contains(e[2]));
}

// ---------------------------------------------------------------------------
// Lanes
// ---------------------------------------------------------------------------

/// Whether some container of a list opted in, or some did not.
pub open spec fn some_with(all: Seq<ContainerView>, explicit: bool) -> bool {
    exists|i: int|
        0 <= i < all.len() && ((#[trigger] all[i]).service_name_explicit
            && all[i].service_name.len() > 0) == explicit
}

/// Whether something that stopped was a service, or was not.
pub open spec fn some_stopped(all: Seq<StoppedWorkload>, explicit: bool) -> bool {
    exists|i: int| 0 <= i < all.len() && (#[trigger] all[i]).explicit_service == explicit
}

proof fn lemma_routed(all: Seq<ContainerView>, explicit: bool)
    ensures
        routed(all, explicit).len() > 0 <==> some_with(all, explicit),
{
    let f = |c: ContainerView| c.explicit_service() == explicit;
    broadcast use vstd::seq_lib::group_filter_ensures;

    if some_with(all, explicit) {
        let i = choose|i: int|
            0 <= i < all.len() && ((#[trigger] all[i]).service_name_explicit
                && all[i].service_name.len() > 0) == explicit;
        assert(f(all[i]));
        assert(all.filter(f).contains(all[i]));
    }
    if routed(all, explicit).len() > 0 {
        let c = all.filter(f)[0];
        assert(f(c));
        assert(all.filter(f).contains(c));
        all.lemma_filter_contains_rev(f, c);
        let i = choose|i: int| 0 <= i < all.len() && all[i] == c;
        assert((all[i].service_name_explicit && all[i].service_name.len() > 0) == explicit);
    }
}

proof fn lemma_stopped(all: Seq<StoppedWorkload>, explicit: bool)
    ensures
        stopped_ids(all, explicit).len() > 0 <==> some_stopped(all, explicit),
{
    let f = |s: StoppedWorkload|
        if s.explicit_service == explicit {
            Some(s.identifier@)
        } else {
            None
        };
    if stopped_ids(all, explicit).len() > 0 {
        crate::seqs::lemma_kept_from(all, f, 0);
        let i = choose|i: int|
            0 <= i < all.len() && f(#[trigger] all[i]) == Some(kept(all, f)[0]);
        assert(all[i].explicit_service == explicit);
    }
    if some_stopped(all, explicit) {
        let i = choose|i: int| 0 <= i < all.len() && (#[trigger] all[i]).explicit_service == explicit;
        lemma_kept_some(all, f, i);
    }
}

proof fn lemma_kept_some<A, B>(s: Seq<A>, f: spec_fn(A) -> Option<B>, i: int)
    requires
        0 <= i < s.len(),
        f(s[i]) is Some,
    ensures
        kept(s, f).len() > 0,
    decreases s.len(),
{
    if i < s.len() - 1 {
        assert(s.drop_last()[i] == s[i]);
        lemma_kept_some(s.drop_last(), f, i);
    }
}

/// Changes go to their lanes: to the services what opted in or was one, to the containers
/// all else, to the files the new ones, to the journal the new and the stopped units. A lane
/// without anything gets no report.
pub proof fn changes_go_to_their_lanes(report: InventoryReport)
    ensures
        ({
            let lanes = change_lanes(report);
            let all = reported(report);
            let stopped = report.stopped_containers@;
            &&& lanes.contains(Lane::Services) <==> some_with(all, true) || some_stopped(
                stopped,
                true,
            )
            &&& lanes.contains(Lane::Containers) <==> some_with(all, false) || some_stopped(
                stopped,
                false,
            )
            &&& lanes.contains(Lane::Files) <==> report.new_files@.len() > 0
            &&& lanes.contains(Lane::Journald) <==> report.new_services@.len() > 0
                || report.stopped_services@.len() > 0
            &&& lanes.len() <= 4
            &&& !lanes.contains(Lane::Processes) && !lanes.contains(Lane::Ports)
                && !lanes.contains(Lane::EventLog)
        }),
        reported(report).len() == report.new_containers@.len() + report.changed_containers@.len(),
{
    let all = reported(report);
    let stopped = report.stopped_containers@;
    lemma_routed(all, true);
    lemma_routed(all, false);
    lemma_stopped(stopped, true);
    lemma_stopped(stopped, false);
    let a = crate::agent::lane_if(
        Lane::Services,
        routed(all, true).len() > 0 || stopped_ids(stopped, true).len() > 0,
    );
    let b = crate::agent::lane_if(
        Lane::Containers,
        routed(all, false).len() > 0 || stopped_ids(stopped, false).len() > 0,
    );
    let c = crate::agent::lane_if(Lane::Files, report.new_files@.len() > 0);
    let d = crate::agent::lane_if(
        Lane::Journald,
        report.new_services@.len() > 0 || report.stopped_services@.len() > 0,
    );
    let lanes = a + b + c + d;
    if a.len() > 0 {
        assert(lanes[0] == Lane::Services);
    }
    if b.len() > 0 {
        assert(lanes[a.len() as int] == Lane::Containers);
    }
    if c.len() > 0 {
        assert(lanes[(a.len() + b.len()) as int] == Lane::Files);
    }
    if d.len() > 0 {
        assert(lanes[(a.len() + b.len() + c.len()) as int] == Lane::Journald);
    }
}

/// Snapshots go to the lanes for which there is something, under the lane's own name.
pub proof fn snapshots_go_to_their_lanes(census: Census)
    ensures
        ({
            let lanes = snapshot_lanes(census);
            &&& lanes.contains(Lane::Processes) <==> census.processes@.len() > 0
            &&& lanes.contains(Lane::Ports) <==> census.listening_ports@.len() > 0
            &&& lanes.contains(Lane::EventLog) <==> census.event_log_channels@.len() > 0
            &&& lanes.len() <= 3
            &&& has(
                snapshot_payload(Lane::Processes, census),
                "processes"@,
                JsonView::Array(census.processes@.map_values(|p: Process| process_entry(p))),
            )
            &&& has(
                snapshot_payload(Lane::Ports, census),
                "listening_ports"@,
                JsonView::Array(
                    census.listening_ports@.map_values(|p: ListeningPort| port_entry(p)),
                ),
            )
            &&& has(
                snapshot_payload(Lane::EventLog, census),
                "channels"@,
                JsonView::Array(
                    census.event_log_channels@.map_values(|c: EventLogChannel| channel_entry(c)),
                ),
            )
        }),
{
    let a = crate::agent::lane_if(Lane::Processes, census.processes@.len() > 0);
    let b = crate::agent::lane_if(Lane::Ports, census.listening_ports@.len() > 0);
    let c = crate::agent::lane_if(Lane::EventLog, census.event_log_channels@.len() > 0);
    let lanes = a + b + c;
    if a.len() > 0 {
        assert(lanes[0] == Lane::Processes);
    }
    if b.len() > 0 {
        assert(lanes[a.len() as int] == Lane::Ports);
    }
    if c.len() > 0 {
        assert(lanes[(a.len() + b.len()) as int] == Lane::EventLog);
    }
    let x = snapshot_payload(Lane::Processes, census)->Object_0;
    let y = snapshot_payload(Lane::Ports, census)->Object_0;
    let z = snapshot_payload(Lane::EventLog, census)->Object_0;
    assert(x.contains(x[0]) && y.contains(y[0]) && z.contains(z[0]));
}

/// What a lane gets of the changes: an entry for each container that goes there, and the
/// identifiers of what stopped; a full report is marked so.
pub proof fn lanes_get_their_entries(
    v: JsonView,
    report: InventoryReport,
    discovered: Seq<ContainerView>,
)
    ensures
        is_change_payload(Lane::Services, v, report, discovered, false) ==> v is Object && {
            &&& v->Object_0.len() == 2
            &&& v->Object_0[0].0 == "services"@
            &&& v->Object_0[0].1 is Array
            &&& v->Object_0[0].1->Array_0.len() == routed(reported(report), true).len()
            &&& forall|i: int|
                0 <= i < routed(reported(report), true).len() ==> is_service_entry(
                    #[trigger] v->Object_0[0].1->Array_0[i],
                    routed(reported(report), true)[i],
                )
            &&& v->Object_0[1] == (
                "stopped_services"@,
                identifier_list(stopped_ids(report.stopped_containers@, true)),
            )
        },
        is_change_payload(Lane::Containers, v, report, discovered, false) ==> v is Object && {
            &&& v->Object_0.len() == 2
            &&& v->Object_0[0].0 == "containers"@
            &&& v->Object_0[0].1 is Array
            &&& v->Object_0[0].1->Array_0.len() == routed(reported(report), false).len()
            &&& forall|i: int|
                0 <= i < routed(reported(report), false).len() ==> is_workload_entry(
                    #[trigger] v->Object_0[0].1->Array_0[i],
                    routed(reported(report), false)[i],
                    discovered,
                )
            &&& v->Object_0[1] == (
                "stopped_containers"@,
                stopped_workload_list(stopped_ids(report.stopped_containers@, false)),
            )
        },
        is_change_payload(Lane::Files, v, report, discovered, false) ==> has(
            v,
            "files"@,
            JsonView::Array(report.new_files@.map_values(|f: LogFile| file_entry(f))),
        ),
        is_change_payload(Lane::Journald, v, report, discovered, false) ==> has(
            v,
            "units"@,
            JsonView::Array(report.new_services@.map_values(|s: SystemdService| unit_entry(s))),
        ) && has(
            v,
            "stopped_units"@,
            identifier_list(crate::text::strings(report.stopped_services@)),
        ),
{
    if is_change_payload(Lane::Files, v, report, discovered, false) {
        assert(v->Object_0.contains(v->Object_0[0]));
    }
    if is_change_payload(Lane::Journald, v, report, discovered, false) {
        assert(v->Object_0.contains(v->Object_0[0]) && v->Object_0.contains(v->Object_0[1]));
    }
}

/// What stopped is reported by its identifier, each once and in order.
pub proof fn what_stopped_is_named(ids: Seq<Seq<char>>, i: int)
    requires
        0 <= i < ids.len(),
    ensures
        identifier_list(ids) is Array,
        identifier_list(ids)->Array_0.len() == ids.len(),
        has_text(identifier_list(ids)->Array_0[i], "identifier"@, ids[i]),
        stopped_workload_list(ids) is Array,
        stopped_workload_list(ids)->Array_0.len() == ids.len(),
        has_text(stopped_workload_list(ids)->Array_0[i], "identifier"@, ids[i]),
        has_text(stopped_workload_list(ids)->Array_0[i], "stable_identifier"@, ids[i]),
{
    let a = identifier_list(ids)->Array_0[i]->Object_0;
    let b = stopped_workload_list(ids)->Array_0[i]->Object_0;
    assert(a.contains(a[0]));
    assert(b.contains(b[0]) && b.contains(b[1]));
}

/// A cycle reports its changes in order, then its snapshots in order, then packages; the
/// scan is taken with the last change, or at once where there is none, and undone by the
/// first one that fails, which keeps back the other changes and nothing else.
pub proof fn cycles_go_in_order(cycle: Cycle, i: usize, reply: LaneReply)
    ensures
        cycle.changes > 0 ==> after_changes(cycle, 0) == (Step::SendChange(0), ScanEffect::Nothing),
        cycle.changes == 0 ==> after_changes(cycle, 0).1 == ScanEffect::Commit,
        i + 1 < cycle.changes && reply is Accepted ==> after_step(cycle, Step::SendChange(i), reply)
            == (Step::SendChange((i + 1) as usize), ScanEffect::Nothing),
        i + 1 == cycle.changes && reply is Accepted ==> after_step(
            cycle,
            Step::SendChange(i),
            reply,
        ).1 == ScanEffect::Commit,
        i + 1 == cycle.changes || reply is Failed ==> {
            let next = after_step(cycle, Step::SendChange(i), reply).0;
            &&& cycle.snapshots > 0 ==> next == Step::SendSnapshot(0)
            &&& cycle.snapshots == 0 && cycle.packages ==> next == Step::SendPackages
            &&& cycle.snapshots == 0 && !cycle.packages ==> next == Step::Rest
        },
        reply is Failed ==> after_step(cycle, Step::SendChange(i), reply).1
            == ScanEffect::Rollback,
        i + 1 < cycle.snapshots ==> after_step(cycle, Step::SendSnapshot(i), reply) == (
            Step::SendSnapshot((i + 1) as usize),
            ScanEffect::Nothing,
        ),
        i + 1 == cycle.snapshots && cycle.packages ==> after_step(
            cycle,
            Step::SendSnapshot(i),
            reply,
        ) == (Step::SendPackages, ScanEffect::Nothing),
        i + 1 == cycle.snapshots && !cycle.packages ==> after_step(
            cycle,
            Step::SendSnapshot(i),
            reply,
        ) == (Step::Rest, ScanEffect::Nothing),
        after_step(cycle, Step::SendPackages, reply) == (Step::Rest, ScanEffect::Nothing),
{
}

} // verus!
