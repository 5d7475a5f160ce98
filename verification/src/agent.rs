//! What the agent reports of what it discovered, and when.
use vstd::prelude::*;
use vstd::string::*;

use crate::census_entries::{
    are_instances, container_census_entry, container_views, entry, is_container_entry,
    is_service_entry, ref_views, service_census_entry, stamp_full_report, stamped,
    workload_instances,
};
use crate::config::ebpf::ebpf_section;
use crate::config::fields::{bool_or, string_array_field, texts_in};
use crate::config::unified::UnifiedConfig;
use crate::discovery::census::Census;
use crate::discovery::container::{Container, ContainerView};
use crate::discovery::event_log::EventLogChannel;
use crate::discovery::files::{default_log_extensions, default_scan_paths, LogFile};
use crate::discovery::ports::ListeningPort;
use crate::discovery::processes::Process;
use crate::discovery::systemd::SystemdService;
use crate::json::{entry_views, views, Json, JsonView};
use crate::seqs::{kept, lemma_kept_step};
use crate::text::{after_last, rest_after_last, strings};

verus! {

// ---------------------------------------------------------------------------
// Settings of a scan
// ---------------------------------------------------------------------------

/// A list of texts in the section of discovery, or the default where there is
/// none or it is empty.
pub open spec fn discovery_list(
    config: Option<&UnifiedConfig>,
    field: Seq<char>,
    default: Seq<Seq<char>>,
) -> Seq<Seq<char>> {
    match config {
        Some(c) => match c.raw@.get("discovery"@) {
            Some(section) => if texts_in(section, field).len() > 0 {
                texts_in(section, field)
            } else {
                default
            },
            None => default,
        },
        None => default,
    }
}

fn list_or(config: Option<&UnifiedConfig>, field: &str, default: Vec<String>) -> (r: Vec<String>)
    ensures
        strings(r@) == discovery_list(config, field@, strings(default@)),
{
    match config {
        Some(c) => match c.section("discovery") {
            Some(section) => {
                let configured = string_array_field(section, field);
                assert(strings(configured@).len() == configured@.len());
                if configured.len() > 0 {
                    configured
                } else {
                    default
                }
            },
            None => default,
        },
        None => default,
    }
}

/// The directories that are scanned: those that are configured, else the usual
/// ones of the system.
pub fn extract_scan_paths(config: Option<&UnifiedConfig>, windows: bool) -> (r: Vec<String>)
    ensures
        strings(r@) == discovery_list(
            config,
            "scan_paths"@,
            if windows {
                seq!["C:\\inetpub\\logs\\LogFiles"@, "C:\\Windows\\Logs"@, "C:\\ProgramData"@]
            } else {
                seq!["/var/log"@]
            },
        ),
{
    list_or(config, "scan_paths", default_scan_paths(windows))
}

/// The extensions of log files: those that are configured, else the usual one.
pub fn extract_log_extensions(config: Option<&UnifiedConfig>) -> (r: Vec<String>)
    ensures
        strings(r@) == discovery_list(config, "log_extensions"@, seq!["log"@]),
{
    list_or(config, "log_extensions", default_log_extensions())
}

/// Whether the processes of containers are looked for: where probes can run and
/// the configuration switches them on.
pub fn runtime_process_discovery_enabled(config: Option<&UnifiedConfig>, supported: bool) -> (r:
    bool)
    ensures
        r == (supported && config is Some && config->0.raw@.get("ebpf"@) is Some && bool_or(
            config->0.raw@.get("ebpf"@)->0,
            "enabled"@,
            false,
        )),
{
    if !supported {
        return false;
    }
    match config {
        Some(c) => match ebpf_section(c) {
            Some(section) => section.enabled,
            None => false,
        },
        None => false,
    }
}

// ---------------------------------------------------------------------------
// Changes
// ---------------------------------------------------------------------------

/// A workload or a service that stopped.
#[derive(Debug)]
pub struct StoppedWorkload {
    pub identifier: String,
    pub explicit_service: bool,
}

/// What changed since the last report.
pub struct InventoryReport {
    pub new_containers: Vec<Container>,
    pub changed_containers: Vec<Container>,
    pub stopped_containers: Vec<StoppedWorkload>,
    pub new_files: Vec<LogFile>,
    pub new_services: Vec<SystemdService>,
    /// The identifiers of the units that stopped.
    pub stopped_services: Vec<String>,
}

/// Where a report goes.
#[derive(Debug, Clone, Copy, PartialEq, Eq, Structural)]
pub enum Lane {
    Services,
    Containers,
    Files,
    Journald,
    Processes,
    Ports,
    EventLog,
}

/// A report, and where it goes.
#[derive(Debug)]
pub struct LaneReport {
    pub lane: Lane,
    pub payload: Json,
}

/// The containers that are reported, new ones first.
pub open spec fn reported(report: InventoryReport) -> Seq<ContainerView> {
    container_views(report.new_containers@) + container_views(report.changed_containers@)
}

/// Containers whose owner named a service, or those where nobody did.
pub open spec fn routed(all: Seq<ContainerView>, explicit: bool) -> Seq<ContainerView> {
    all.filter(|c: ContainerView| c.explicit_service() == explicit)
}

/// The identifiers of what stopped, of services or of all else.
pub open spec fn stopped_ids(stopped: Seq<StoppedWorkload>, explicit: bool) -> Seq<Seq<char>> {
    kept(
        stopped,
        |s: StoppedWorkload|
            if s.explicit_service == explicit {
                Some(s.identifier@)
            } else {
                None
            },
    )
}

fn push_routed<'a>(out: &mut Vec<&'a Container>, containers: &'a Vec<Container>, explicit: bool)
    ensures
        ref_views(final(out)@) == ref_views(old(out)@) + routed(
            container_views(containers@),
            explicit,
        ),
{
    let ghost all = container_views(containers@);
    let ghost start = ref_views(out@);
    let mut i: usize = 0;
    proof {
        reveal(Seq::filter);
        assert(start =~= start + routed(all.take(0), explicit));
    }
    while i < containers.len()
        invariant
            i <= containers@.len(),
            all == container_views(containers@),
            ref_views(out@) == start + routed(all.take(i as int), explicit),
        decreases containers.len() - i,
    {
        proof {
            reveal(Seq::filter);
            assert(all.take(i + 1).drop_last() =~= all.take(i as int));
            assert(all.take(i + 1).last() == containers@[i as int]@);
        }
        let ghost before = ref_views(out@);
        if containers[i].explicit_service() == explicit {
            out.push(&containers[i]);
            assert(ref_views(out@) =~= before.push(containers@[i as int]@));
            assert(ref_views(out@) =~= start + routed(all.take(i + 1), explicit));
        }
        i = i + 1;
    }
    assert(all.take(i as int) =~= all);
}

fn route<'a>(report: &'a InventoryReport, explicit: bool) -> (r: Vec<&'a Container>)
    ensures
        ref_views(r@) == routed(reported(*report), explicit),
{
    let mut out: Vec<&'a Container> = Vec::new();
    assert(ref_views(out@) =~= seq![]);
    push_routed(&mut out, &report.new_containers, explicit);
    push_routed(&mut out, &report.changed_containers, explicit);
    proof {
        let want = |c: ContainerView| c.explicit_service() == explicit;
        Seq::filter_distributes_over_add(
            container_views(report.new_containers@),
            container_views(report.changed_containers@),
            want,
        );
        assert(ref_views(out@) =~= routed(reported(*report), explicit));
    }
    out
}

fn stopped_of(stopped: &Vec<StoppedWorkload>, explicit: bool) -> (r: Vec<String>)
    ensures
        strings(r@) == stopped_ids(stopped@, explicit),
{
    let ghost f = |s: StoppedWorkload|
        if s.explicit_service == explicit {
            Some(s.identifier@)
        } else {
            None
        };
    let mut out: Vec<String> = Vec::new();
    let mut i: usize = 0;
    assert(strings(out@) =~= kept(stopped@.take(0), f));
    while i < stopped.len()
        invariant
            i <= stopped@.len(),
            f == (|s: StoppedWorkload|
                if s.explicit_service == explicit {
                    Some(s.identifier@)
                } else {
                    None
                }),
            strings(out@) == kept(stopped@.take(i as int), f),
        decreases stopped.len() - i,
    {
        proof {
            lemma_kept_step(stopped@, f, i as int);
        }
        let ghost before = strings(out@);
        if stopped[i].explicit_service == explicit {
            out.push(stopped[i].identifier.clone());
            assert(strings(out@) =~= before.push(stopped@[i as int].identifier@));
        }
        i = i + 1;
    }
    assert(stopped@.take(i as int) =~= stopped@);
    out
}

/// An object with one text.
pub open spec fn one_text(key: Seq<char>, s: Seq<char>) -> JsonView {
    JsonView::Object(seq![(key, JsonView::Text(s))])
}

/// The identifiers of what stopped, each in an object.
pub open spec fn identifier_list(ids: Seq<Seq<char>>) -> JsonView {
    JsonView::Array(ids.map_values(|id: Seq<char>| one_text("identifier"@, id)))
}

fn identifiers_json(ids: &Vec<String>) -> (r: Json)
    ensures
        r@ == identifier_list(strings(ids@)),
{
    let ghost all = strings(ids@).map_values(|id: Seq<char>| one_text("identifier"@, id));
    let mut out: Vec<Json> = Vec::new();
    let mut i: usize = 0;
    assert(views(out@) =~= all.take(0));
    while i < ids.len()
        invariant
            i <= ids@.len(),
            all == strings(ids@).map_values(|id: Seq<char>| one_text("identifier"@, id)),
            views(out@) == all.take(i as int),
        decreases ids.len() - i,
    {
        let ghost before = views(out@);
        let mut e: Vec<(String, Json)> = Vec::new();
        e.push(entry("identifier", Json::text(ids[i].as_str())));
        assert(entry_views(e@) =~= seq![("identifier"@, JsonView::Text(ids@[i as int]@))]);
        let object = Json::object(e);
        out.push(object);
        assert(views(out@) =~= before.push(object@));
        i = i + 1;
        assert(all.take(i as int) =~= all.take(i - 1).push(all[i - 1]));
    }
    assert(all.take(i as int) =~= all);
    Json::array(out)
}

// ---------------------------------------------------------------------------
// Payloads
// ---------------------------------------------------------------------------

/// Whether documents are the entries of services.
pub open spec fn lists_services(list: Seq<JsonView>, services: Seq<ContainerView>) -> bool {
    &&& list.len() == services.len()
    &&& forall|i: int|
        0 <= i < services.len() ==> is_service_entry(#[trigger] list[i], services[i])
}

/// Whether a document reports services and those that stopped.
pub open spec fn is_services_payload(
    v: JsonView,
    services: Seq<ContainerView>,
    stopped: Seq<Seq<char>>,
    full_report: bool,
) -> bool {
    exists|list: Seq<JsonView>| #[trigger]
        lists_services(list, services) && v == stamped(
            JsonView::Object(
                seq![
                    ("services"@, JsonView::Array(list)),
                    ("stopped_services"@, identifier_list(stopped)),
                ],
            ),
            full_report,
        )
}

/// Whether a document is the entry of a workload, with its instances of the scan.
pub open spec fn is_workload_entry(
    v: JsonView,
    c: ContainerView,
    discovered: Seq<ContainerView>,
) -> bool {
    exists|instances: Seq<ContainerView>| #[trigger]
        are_instances(discovered, c.stable_id(), instances) && is_container_entry(v, c, instances)
}

/// Whether documents are the entries of workloads.
pub open spec fn lists_workloads(
    list: Seq<JsonView>,
    containers: Seq<ContainerView>,
    discovered: Seq<ContainerView>,
) -> bool {
    &&& list.len() == containers.len()
    &&& forall|i: int|
        0 <= i < containers.len() ==> is_workload_entry(
            #[trigger] list[i],
            containers[i],
            discovered,
        )
}

/// What stopped among the workloads, each under both its identifiers.
pub open spec fn stopped_workload_list(ids: Seq<Seq<char>>) -> JsonView {
    JsonView::Array(
        ids.map_values(
            |id: Seq<char>|
                JsonView::Object(
                    seq![
                        ("identifier"@, JsonView::Text(id)),
                        ("stable_identifier"@, JsonView::Text(id)),
                    ],
                ),
        ),
    )
}

/// Whether a document reports workloads and those that stopped.
pub open spec fn is_containers_payload(
    v: JsonView,
    containers: Seq<ContainerView>,
    discovered: Seq<ContainerView>,
    stopped: Seq<Seq<char>>,
    full_report: bool,
) -> bool {
    exists|list: Seq<JsonView>| #[trigger]
        lists_workloads(list, containers, discovered) && v == stamped(
            JsonView::Object(
                seq![
                    ("containers"@, JsonView::Array(list)),
                    ("stopped_containers"@, stopped_workload_list(stopped)),
                ],
            ),
            full_report,
        )
}

/// The entry of a log file.
pub open spec fn file_entry(f: LogFile) -> JsonView {
    JsonView::Object(
        seq![
            ("format"@, JsonView::Text(f.format@)),
            ("identifier"@, JsonView::Text(f.path@)),
            ("line_count"@, JsonView::Unsigned(f.line_count)),
            ("modified"@, JsonView::Text(f.modified@)),
            ("name"@, JsonView::Text(after_last(f.path@, '/'))),
            ("path"@, JsonView::Text(f.path@)),
            ("permissions"@, JsonView::Text(f.permissions@)),
            ("size"@, JsonView::Unsigned(f.size)),
            ("state"@, JsonView::Text("active"@)),
        ],
    )
}

/// A report of log files.
pub open spec fn files_payload(files: Seq<LogFile>) -> JsonView {
    JsonView::Object(
        seq![("files"@, JsonView::Array(files.map_values(|f: LogFile| file_entry(f))))],
    )
}

/// The entry of a systemd unit.
pub open spec fn unit_entry(s: SystemdService) -> JsonView {
    JsonView::Object(
        seq![
            ("active_state"@, JsonView::Text(s.active_state@)),
            ("identifier"@, JsonView::Text(s.name@)),
            ("load_state"@, JsonView::Text(s.load_state@)),
            ("sub_state"@, JsonView::Text(s.sub_state@)),
            ("unit_name"@, JsonView::Text(s.name@)),
        ],
    )
}

/// A report of systemd units and of those that stopped.
pub open spec fn units_payload(units: Seq<SystemdService>, stopped: Seq<Seq<char>>) -> JsonView {
    JsonView::Object(
        seq![
            ("stopped_units"@, identifier_list(stopped)),
            ("units"@, JsonView::Array(units.map_values(|s: SystemdService| unit_entry(s)))),
        ],
    )
}

fn services_json(services: &Vec<&Container>, stopped: &Vec<String>, full_report: bool) -> (r: Json)
    ensures
        is_services_payload(r@, ref_views(services@), strings(stopped@), full_report),
{
    let mut out: Vec<Json> = Vec::new();
    let mut i: usize = 0;
    while i < services.len()
        invariant
            i <= services@.len(),
            out@.len() == i,
            forall|j: int|
                0 <= j < i ==> is_service_entry((#[trigger] out@[j])@, services@[j]@),
        decreases services.len() - i,
    {
        out.push(service_census_entry(services[i]));
        i = i + 1;
    }
    let ghost list = views(out@);
    let stopped_list = identifiers_json(stopped);
    let mut e: Vec<(String, Json)> = Vec::new();
    e.push(entry("services", Json::array(out)));
    e.push(entry("stopped_services", stopped_list));
    assert(entry_views(e@) =~= seq![
        ("services"@, JsonView::Array(list)),
        ("stopped_services"@, identifier_list(strings(stopped@))),
    ]);
    assert(lists_services(list, ref_views(services@))) by {
        assert forall|j: int| 0 <= j < list.len() implies is_service_entry(
            #[trigger] list[j],
            ref_views(services@)[j],
        ) by {
            assert(is_service_entry(out@[j]@, services@[j]@));
        }
    }
    stamp_full_report(Json::object(e), full_report)
}

fn stopped_workloads_json(ids: &Vec<String>) -> (r: Json)
    ensures
        r@ == stopped_workload_list(strings(ids@)),
{
    let ghost all = stopped_workload_list(strings(ids@))->Array_0;
    let mut out: Vec<Json> = Vec::new();
    let mut i: usize = 0;
    assert(views(out@) =~= all.take(0));
    while i < ids.len()
        invariant
            i <= ids@.len(),
            all == stopped_workload_list(strings(ids@))->Array_0,
            views(out@) == all.take(i as int),
        decreases ids.len() - i,
    {
        let ghost before = views(out@);
        let mut e: Vec<(String, Json)> = Vec::new();
        e.push(entry("identifier", Json::text(ids[i].as_str())));
        e.push(entry("stable_identifier", Json::text(ids[i].as_str())));
        assert(entry_views(e@) =~= seq![
            ("identifier"@, JsonView::Text(ids@[i as int]@)),
            ("stable_identifier"@, JsonView::Text(ids@[i as int]@)),
        ]);
        let object = Json::object(e);
        out.push(object);
        assert(views(out@) =~= before.push(object@));
        i = i + 1;
        assert(all.take(i as int) =~= all.take(i - 1).push(all[i - 1]));
    }
    assert(all.take(i as int) =~= all);
    Json::array(out)
}

fn containers_json(
    containers: &Vec<&Container>,
    discovered: &Vec<Container>,
    stopped: &Vec<String>,
    full_report: bool,
) -> (r: Json)
    ensures
        is_containers_payload(
            r@,
            ref_views(containers@),
            container_views(discovered@),
            strings(stopped@),
            full_report,
        ),
{
    let ghost scan = container_views(discovered@);
    let mut out: Vec<Json> = Vec::new();
    let mut i: usize = 0;
    while i < containers.len()
        invariant
            i <= containers@.len(),
            scan == container_views(discovered@),
            out@.len() == i,
            forall|j: int|
                0 <= j < i ==> is_workload_entry((#[trigger] out@[j])@, containers@[j]@, scan),
        decreases containers.len() - i,
    {
        let c: &Container = containers[i];
        let instances = workload_instances(c, discovered);
        let json = container_census_entry(c, &instances);
        assert(is_workload_entry(json@, c@, scan));
        out.push(json);
        i = i + 1;
    }
    let ghost list = views(out@);
    let stopped_list = stopped_workloads_json(stopped);
    let mut e: Vec<(String, Json)> = Vec::new();
    e.push(entry("containers", Json::array(out)));
    e.push(entry("stopped_containers", stopped_list));
    assert(entry_views(e@) =~= seq![
        ("containers"@, JsonView::Array(list)),
        ("stopped_containers"@, stopped_workload_list(strings(stopped@))),
    ]);
    assert(lists_workloads(list, ref_views(containers@), scan)) by {
        assert forall|j: int| 0 <= j < list.len() implies is_workload_entry(
            #[trigger] list[j],
            ref_views(containers@)[j],
            scan,
        ) by {
            assert(is_workload_entry(out@[j]@, containers@[j]@, scan));
        }
    }
    stamp_full_report(Json::object(e), full_report)
}

fn files_json(files: &Vec<LogFile>) -> (r: Json)
    ensures
        r@ == files_payload(files@),
{
    let ghost all = files@.map_values(|f: LogFile| file_entry(f));
    let mut out: Vec<Json> = Vec::new();
    let mut i: usize = 0;
    assert(views(out@) =~= all.take(0));
    while i < files.len()
        invariant
            i <= files@.len(),
            all == files@.map_values(|f: LogFile| file_entry(f)),
            views(out@) == all.take(i as int),
        decreases files.len() - i,
    {
        let ghost before = views(out@);
        let f = &files[i];
        let mut e: Vec<(String, Json)> = Vec::new();
        e.push(entry("format", Json::text(f.format.as_str())));
        e.push(entry("identifier", Json::text(f.identifier())));
        e.push(entry("line_count", Json::unsigned(f.line_count)));
        e.push(entry("modified", Json::text(f.modified.as_str())));
        e.push(entry("name", Json::text(rest_after_last(f.path.as_str(), '/'))));
        e.push(entry("path", Json::text(f.path.as_str())));
        e.push(entry("permissions", Json::text(f.permissions.as_str())));
        e.push(entry("size", Json::unsigned(f.size)));
        e.push(entry("state", Json::text("active")));
        assert(entry_views(e@) =~= file_entry(*f)->Object_0);
        let object = Json::object(e);
        out.push(object);
        assert(views(out@) =~= before.push(object@));
        i = i + 1;
        assert(all.take(i as int) =~= all.take(i - 1).push(all[i - 1]));
    }
    assert(all.take(i as int) =~= all);
    let mut e: Vec<(String, Json)> = Vec::new();
    e.push(entry("files", Json::array(out)));
    assert(entry_views(e@) =~= files_payload(files@)->Object_0);
    Json::object(e)
}

fn units_json(units: &Vec<SystemdService>, stopped: &Vec<String>) -> (r: Json)
    ensures
        r@ == units_payload(units@, strings(stopped@)),
{
    let ghost all = units@.map_values(|s: SystemdService| unit_entry(s));
    let mut out: Vec<Json> = Vec::new();
    let mut i: usize = 0;
    assert(views(out@) =~= all.take(0));
    while i < units.len()
        invariant
            i <= units@.len(),
            all == units@.map_values(|s: SystemdService| unit_entry(s)),
            views(out@) == all.take(i as int),
        decreases units.len() - i,
    {
        let ghost before = views(out@);
        let s = &units[i];
        let mut e: Vec<(String, Json)> = Vec::new();
        e.push(entry("active_state", Json::text(s.active_state.as_str())));
        e.push(entry("identifier", Json::text(s.identifier())));
        e.push(entry("load_state", Json::text(s.load_state.as_str())));
        e.push(entry("sub_state", Json::text(s.sub_state.as_str())));
        e.push(entry("unit_name", Json::text(s.name.as_str())));
        assert(entry_views(e@) =~= unit_entry(*s)->Object_0);
        let object = Json::object(e);
        out.push(object);
        assert(views(out@) =~= before.push(object@));
        i = i + 1;
        assert(all.take(i as int) =~= all.take(i - 1).push(all[i - 1]));
    }
    assert(all.take(i as int) =~= all);
    let stopped_list = identifiers_json(stopped);
    let mut e: Vec<(String, Json)> = Vec::new();
    e.push(entry("stopped_units", stopped_list));
    e.push(entry("units", Json::array(out)));
    assert(entry_views(e@) =~= units_payload(units@, strings(stopped@))->Object_0);
    Json::object(e)
}

// ---------------------------------------------------------------------------
// Reports
// ---------------------------------------------------------------------------

/// A lane where there is something for it, else none.
pub open spec fn lane_if(lane: Lane, wanted: bool) -> Seq<Lane> {
    if wanted {
        seq![lane]
    } else {
        seq![]
    }
}

/// The lanes that changes go to, in order: services only where an owner named
/// one, everything else among the containers.
pub open spec fn change_lanes(report: InventoryReport) -> Seq<Lane> {
    lane_if(
        Lane::Services,
        routed(reported(report), true).len() > 0 || stopped_ids(
            report.stopped_containers@,
            true,
        ).len() > 0,
    ) + lane_if(
        Lane::Containers,
        routed(reported(report), false).len() > 0 || stopped_ids(
            report.stopped_containers@,
            false,
        ).len() > 0,
    ) + lane_if(Lane::Files, report.new_files@.len() > 0) + lane_if(
        Lane::Journald,
        report.new_services@.len() > 0 || report.stopped_services@.len() > 0,
    )
}

/// Whether a document is what a lane gets of the changes.
pub open spec fn is_change_payload(
    lane: Lane,
    v: JsonView,
    report: InventoryReport,
    discovered: Seq<ContainerView>,
    full_report: bool,
) -> bool {
    match lane {
        Lane::Services => is_services_payload(
            v,
            routed(reported(report), true),
            stopped_ids(report.stopped_containers@, true),
            full_report,
        ),
        Lane::Containers => is_containers_payload(
            v,
            routed(reported(report), false),
            discovered,
            stopped_ids(report.stopped_containers@, false),
            full_report,
        ),
        Lane::Files => v == files_payload(report.new_files@),
        Lane::Journald => v == units_payload(report.new_services@, strings(report.stopped_services@)),
        _ => false,
    }
}

/// The lanes of reports.
pub open spec fn lanes(reports: Seq<LaneReport>) -> Seq<Lane> {
    reports.map_values(|r: LaneReport| r.lane)
}

/// What changed, as it is reported: lane by lane, in the order in which the
/// reports are sent. Sending stops at the first one that fails. `full_report` is
/// whether all that there is counts as changed.
pub fn report_inventory(
    report: &InventoryReport,
    discovered: &Vec<Container>,
    full_report: bool,
) -> (r: Vec<LaneReport>)
    ensures
        lanes(r@) == change_lanes(*report),
        forall|i: int|
            0 <= i < r@.len() ==> is_change_payload(
                (#[trigger] r@[i]).lane,
                r@[i].payload@,
                *report,
                container_views(discovered@),
                full_report,
            ),
{
    let services = route(report, true);
    let containers = route(report, false);
    let stopped_services = stopped_of(&report.stopped_containers, true);
    let stopped_containers = stopped_of(&report.stopped_containers, false);
    assert(ref_views(services@).len() == services@.len());
    assert(ref_views(containers@).len() == containers@.len());
    assert(strings(stopped_services@).len() == stopped_services@.len());
    assert(strings(stopped_containers@).len() == stopped_containers@.len());
    let mut out: Vec<LaneReport> = Vec::new();
    let ghost mut so_far: Seq<Lane> = seq![];
    assert(lanes(out@) =~= so_far);
    if services.len() > 0 || stopped_services.len() > 0 {
        let payload = services_json(&services, &stopped_services, full_report);
        out.push(LaneReport { lane: Lane::Services, payload });
    }
    proof {
        so_far = so_far + lane_if(
            Lane::Services,
            services@.len() > 0 || stopped_services@.len() > 0,
        );
        assert(lanes(out@) =~= so_far);
    }
    if containers.len() > 0 || stopped_containers.len() > 0 {
        let payload = containers_json(&containers, discovered, &stopped_containers, full_report);
        out.push(LaneReport { lane: Lane::Containers, payload });
    }
    proof {
        so_far = so_far + lane_if(
            Lane::Containers,
            containers@.len() > 0 || stopped_containers@.len() > 0,
        );
        assert(lanes(out@) =~= so_far);
    }
    if report.new_files.len() > 0 {
        let payload = files_json(&report.new_files);
        out.push(LaneReport { lane: Lane::Files, payload });
    }
    proof {
        so_far = so_far + lane_if(Lane::Files, report.new_files@.len() > 0);
        assert(lanes(out@) =~= so_far);
    }
    if report.new_services.len() > 0 || report.stopped_services.len() > 0 {
        let payload = units_json(&report.new_services, &report.stopped_services);
        out.push(LaneReport { lane: Lane::Journald, payload });
    }
    proof {
        so_far = so_far + lane_if(
            Lane::Journald,
            report.new_services@.len() > 0 || report.stopped_services@.len() > 0,
        );
        assert(lanes(out@) =~= so_far);
        assert(so_far =~= change_lanes(*report));
    }
    out
}

// ---------------------------------------------------------------------------
// Snapshots
// ---------------------------------------------------------------------------

/// The entry of a process.
pub open spec fn process_entry(p: Process) -> JsonView {
    JsonView::Object(
        seq![
            ("command"@, JsonView::Text(p.command@)),
            ("cpu"@, JsonView::Text(p.cpu@)),
            ("mem"@, JsonView::Text(p.mem@)),
            ("pid"@, JsonView::Unsigned(p.pid as u64)),
            ("user"@, JsonView::Text(p.user@)),
        ],
    )
}

/// The entry of a listening port.
pub open spec fn port_entry(p: ListeningPort) -> JsonView {
    JsonView::Object(
        seq![
            ("pid"@, JsonView::Unsigned(p.pid as u64)),
            ("port"@, JsonView::Unsigned(p.port as u64)),
            ("process"@, JsonView::Text(p.process@)),
            ("protocol"@, JsonView::Text(p.protocol@)),
        ],
    )
}

/// The entry of a channel of the Windows event log.
pub open spec fn channel_entry(c: EventLogChannel) -> JsonView {
    JsonView::Object(
        seq![
            ("channel"@, JsonView::Text(c.channel@)),
            ("identifier"@, JsonView::Text(c.channel@)),
            ("record_count"@, JsonView::Unsigned(c.record_count)),
        ],
    )
}

/// An object with one list.
pub open spec fn one_list(key: Seq<char>, items: Seq<JsonView>) -> JsonView {
    JsonView::Object(seq![(key, JsonView::Array(items))])
}

fn list_object(key: &str, items: Vec<Json>) -> (r: Json)
    ensures
        r@ == one_list(key@, views(items@)),
{
    let mut e: Vec<(String, Json)> = Vec::new();
    let list = Json::array(items);
    e.push(entry(key, list));
    assert(entry_views(e@) =~= seq![(key@, list@)]);
    Json::object(e)
}

/// The lanes that a snapshot goes to: those for which the scan found something.
pub open spec fn snapshot_lanes(census: Census) -> Seq<Lane> {
    lane_if(Lane::Processes, census.processes@.len() > 0) + lane_if(
        Lane::Ports,
        census.listening_ports@.len() > 0,
    ) + lane_if(Lane::EventLog, census.event_log_channels@.len() > 0)
}

/// What a lane gets of a snapshot.
pub open spec fn snapshot_payload(lane: Lane, census: Census) -> JsonView {
    match lane {
        Lane::Processes => one_list(
            "processes"@,
            census.processes@.map_values(|p: Process| process_entry(p)),
        ),
        Lane::Ports => one_list(
            "listening_ports"@,
            census.listening_ports@.map_values(|p: ListeningPort| port_entry(p)),
        ),
        _ => one_list(
            "channels"@,
            census.event_log_channels@.map_values(|c: EventLogChannel| channel_entry(c)),
        ),
    }
}

fn processes_json(processes: &Vec<Process>) -> (r: Vec<Json>)
    ensures
        views(r@) == processes@.map_values(|p: Process| process_entry(p)),
{
    let ghost all = processes@.map_values(|p: Process| process_entry(p));
    let mut out: Vec<Json> = Vec::new();
    let mut i: usize = 0;
    assert(views(out@) =~= all.take(0));
    while i < processes.len()
        invariant
            i <= processes@.len(),
            all == processes@.map_values(|p: Process| process_entry(p)),
            views(out@) == all.take(i as int),
        decreases processes.len() - i,
    {
        let ghost before = views(out@);
        let p = &processes[i];
        let mut e: Vec<(String, Json)> = Vec::new();
        e.push(entry("command", Json::text(p.command.as_str())));
        e.push(entry("cpu", Json::text(p.cpu.as_str())));
        e.push(entry("mem", Json::text(p.mem.as_str())));
        e.push(entry("pid", Json::unsigned(p.pid as u64)));
        e.push(entry("user", Json::text(p.user.as_str())));
        assert(entry_views(e@) =~= process_entry(*p)->Object_0);
        let object = Json::object(e);
        out.push(object);
        assert(views(out@) =~= before.push(object@));
        i = i + 1;
        assert(all.take(i as int) =~= all.take(i - 1).push(all[i - 1]));
    }
    assert(all.take(i as int) =~= all);
    out
}

fn ports_json(ports: &Vec<ListeningPort>) -> (r: Vec<Json>)
    ensures
        views(r@) == ports@.map_values(|p: ListeningPort| port_entry(p)),
{
    let ghost all = ports@.map_values(|p: ListeningPort| port_entry(p));
    let mut out: Vec<Json> = Vec::new();
    let mut i: usize = 0;
    assert(views(out@) =~= all.take(0));
    while i < ports.len()
        invariant
            i <= ports@.len(),
            all == ports@.map_values(|p: ListeningPort| port_entry(p)),
            views(out@) == all.take(i as int),
        decreases ports.len() - i,
    {
        let ghost before = views(out@);
        let p = &ports[i];
        let mut e: Vec<(String, Json)> = Vec::new();
        e.push(entry("pid", Json::unsigned(p.pid as u64)));
        e.push(entry("port", Json::unsigned(p.port as u64)));
        e.push(entry("process", Json::text(p.process.as_str())));
        e.push(entry("protocol", Json::text(p.protocol.as_str())));
        assert(entry_views(e@) =~= port_entry(*p)->Object_0);
        let object = Json::object(e);
        out.push(object);
        assert(views(out@) =~= before.push(object@));
        i = i + 1;
        assert(all.take(i as int) =~= all.take(i - 1).push(all[i - 1]));
    }
    assert(all.take(i as int) =~= all);
    out
}

fn channels_json(channels: &Vec<EventLogChannel>) -> (r: Vec<Json>)
    ensures
        views(r@) == channels@.map_values(|c: EventLogChannel| channel_entry(c)),
{
    let ghost all = channels@.map_values(|c: EventLogChannel| channel_entry(c));
    let mut out: Vec<Json> = Vec::new();
    let mut i: usize = 0;
    assert(views(out@) =~= all.take(0));
    while i < channels.len()
        invariant
            i <= channels@.len(),
            all == channels@.map_values(|c: EventLogChannel| channel_entry(c)),
            views(out@) == all.take(i as int),
        decreases channels.len() - i,
    {
        let ghost before = views(out@);
        let c = &channels[i];
        let mut e: Vec<(String, Json)> = Vec::new();
        e.push(entry("channel", Json::text(c.channel.as_str())));
        e.push(entry("identifier", Json::text(c.identifier())));
        e.push(entry("record_count", Json::unsigned(c.record_count)));
        assert(entry_views(e@) =~= channel_entry(*c)->Object_0);
        let object = Json::object(e);
        out.push(object);
        assert(views(out@) =~= before.push(object@));
        i = i + 1;
        assert(all.take(i as int) =~= all.take(i - 1).push(all[i - 1]));
    }
    assert(all.take(i as int) =~= all);
    out
}

/// What is reported whole after every scan: processes, listening ports and the
/// channels of the event log. A report that fails keeps none of the others back.
pub fn report_snapshot_data(census: &Census) -> (r: Vec<LaneReport>)
    ensures
        lanes(r@) == snapshot_lanes(*census),
        forall|i: int|
            0 <= i < r@.len() ==> (#[trigger] r@[i]).payload@ == snapshot_payload(
                r@[i].lane,
                *census,
            ),
{
    let mut out: Vec<LaneReport> = Vec::new();
    let ghost mut so_far: Seq<Lane> = seq![];
    assert(lanes(out@) =~= so_far);
    if census.processes.len() > 0 {
        let payload = list_object("processes", processes_json(&census.processes));
        out.push(LaneReport { lane: Lane::Processes, payload });
    }
    proof {
        so_far = so_far + lane_if(Lane::Processes, census.processes@.len() > 0);
        assert(lanes(out@) =~= so_far);
    }
    if census.listening_ports.len() > 0 {
        let payload = list_object("listening_ports", ports_json(&census.listening_ports));
        out.push(LaneReport { lane: Lane::Ports, payload });
    }
    proof {
        so_far = so_far + lane_if(Lane::Ports, census.listening_ports@.len() > 0);
        assert(lanes(out@) =~= so_far);
    }
    if census.event_log_channels.len() > 0 {
        let payload = list_object("channels", channels_json(&census.event_log_channels));
        out.push(LaneReport { lane: Lane::EventLog, payload });
    }
    proof {
        so_far = so_far + lane_if(Lane::EventLog, census.event_log_channels@.len() > 0);
        assert(lanes(out@) =~= so_far);
        assert(so_far =~= snapshot_lanes(*census));
    }
    out
}

// ---------------------------------------------------------------------------
// Packages
// ---------------------------------------------------------------------------

/// How a report of packages ended.
#[derive(Debug, Clone, Copy, PartialEq, Eq, Structural)]
pub enum PackageReply {
    /// It could not be put together.
    NotEncoded,
    /// It could not be sent, or was refused.
    Failed,
    /// It was taken; the control plane may ask for everything anew.
    Accepted { full_resync_required: Option<bool> },
}

/// What becomes of the scan behind a report of packages.
#[derive(Debug, Clone, Copy, PartialEq, Eq, Structural)]
pub enum PackageOutcome {
    /// The next report starts from this scan.
    Commit,
    /// The next report starts from where this one did.
    Rollback,
    /// Every lane reports everything anew.
    Resync,
}

/// What becomes of the scan behind a report of packages. The control plane asks
/// for everything anew on whichever answer comes first, so such a wish goes for
/// every lane.
pub fn report_package_lane(reply: PackageReply) -> (r: PackageOutcome)
    ensures
        r == match reply {
            PackageReply::Accepted { full_resync_required } => if full_resync_required == Some(
                true,
            ) {
                PackageOutcome::Resync
            } else {
                PackageOutcome::Commit
            },
            _ => PackageOutcome::Rollback,
        },
{
    match reply {
        PackageReply::Accepted { full_resync_required } => match full_resync_required {
            Some(true) => PackageOutcome::Resync,
            _ => PackageOutcome::Commit,
        },
        PackageReply::NotEncoded => PackageOutcome::Rollback,
        PackageReply::Failed => PackageOutcome::Rollback,
    }
}

// ---------------------------------------------------------------------------
// A cycle of the agent
// ---------------------------------------------------------------------------

/// How the report of a lane ended.
#[derive(Debug, Clone, Copy, PartialEq, Eq, Structural)]
pub enum LaneReply {
    /// It could not be sent, or was refused.
    Failed,
    /// It was taken; the control plane may ask for everything anew.
    Accepted { full_resync_required: Option<bool> },
}

/// Whether the control plane asks for everything anew.
pub fn asks_for_resync(reply: LaneReply) -> (r: bool)
    ensures
        r == (reply == LaneReply::Accepted { full_resync_required: Some(true) }),
{
    match reply {
        LaneReply::Accepted { full_resync_required: Some(true) } => true,
        _ => false,
    }
}

/// Whether a scan says anything of packages: unless looking for them failed.
pub fn reports_packages(census: &Census) -> (r: bool)
    ensures
        r == !census.errors@.contains_key("packages"@),
{
    !census.errors.contains_key("packages")
}

/// How much a cycle has to report.
#[derive(Debug, Clone, Copy, PartialEq, Eq, Structural)]
pub struct Cycle {
    /// The number of lanes with changes.
    pub changes: usize,
    /// The number of lanes that are reported whole.
    pub snapshots: usize,
    pub packages: bool,
}

/// What the agent does next.
#[derive(Debug, Clone, Copy, PartialEq, Eq, Structural)]
pub enum Step {
    /// Report the lane with changes at this place.
    SendChange(usize),
    /// Report the whole lane at this place.
    SendSnapshot(usize),
    /// Report the packages.
    SendPackages,
    /// Wait for the next cycle.
    Rest,
}

/// What becomes of the scan.
#[derive(Debug, Clone, Copy, PartialEq, Eq, Structural)]
pub enum ScanEffect {
    /// That is not settled yet, or was before.
    Nothing,
    /// The next scan is compared with this one.
    Commit,
    /// The next scan is compared with the one before.
    Rollback,
}

/// What comes when `done` whole lanes are reported.
pub open spec fn after_snapshots(cycle: Cycle, done: int) -> Step {
    if done < cycle.snapshots {
        Step::SendSnapshot(done as usize)
    } else if cycle.packages {
        Step::SendPackages
    } else {
        Step::Rest
    }
}

/// What comes when `done` lanes with changes are reported, and what becomes of the
/// scan: it is taken when all of them are.
pub open spec fn after_changes(cycle: Cycle, done: int) -> (Step, ScanEffect) {
    if done < cycle.changes {
        (Step::SendChange(done as usize), ScanEffect::Nothing)
    } else {
        (after_snapshots(cycle, 0), ScanEffect::Commit)
    }
}

/// What comes after a step, and what becomes of the scan. The first lane with
/// changes that fails ends the report of changes and undoes the scan. The lanes
/// that are reported whole follow all the same, each whatever became of the others.
pub open spec fn after_step(cycle: Cycle, step: Step, reply: LaneReply) -> (Step, ScanEffect) {
    match step {
        Step::SendChange(i) => if reply is Failed {
            (after_snapshots(cycle, 0), ScanEffect::Rollback)
        } else {
            after_changes(cycle, i + 1)
        },
        Step::SendSnapshot(i) => (after_snapshots(cycle, i + 1), ScanEffect::Nothing),
        Step::SendPackages => (Step::Rest, ScanEffect::Nothing),
        Step::Rest => (Step::Rest, ScanEffect::Nothing),
    }
}

/// The first step of a cycle, and what becomes of the scan: one without changes is
/// taken at once.
pub fn begin(cycle: Cycle) -> (r: (Step, ScanEffect))
    ensures
        r == after_changes(cycle, 0),
{
    if cycle.changes > 0 {
        (Step::SendChange(0), ScanEffect::Nothing)
    } else {
        (next_snapshot(cycle, 0), ScanEffect::Commit)
    }
}

fn next_snapshot(cycle: Cycle, done: usize) -> (r: Step)
    ensures
        r == after_snapshots(cycle, done as int),
{
    if done < cycle.snapshots {
        Step::SendSnapshot(done)
    } else if cycle.packages {
        Step::SendPackages
    } else {
        Step::Rest
    }
}

/// What the agent does after a step, and what becomes of the scan.
pub fn run(cycle: Cycle, step: Step, reply: LaneReply) -> (r: (Step, ScanEffect))
    requires
        step matches Step::SendChange(i) ==> i < cycle.changes,
        step matches Step::SendSnapshot(i) ==> i < cycle.snapshots,
    ensures
        r == after_step(cycle, step, reply),
{
    match step {
        Step::SendChange(i) => match reply {
            LaneReply::Failed => (next_snapshot(cycle, 0), ScanEffect::Rollback),
            _ => if i + 1 < cycle.changes {
                (Step::SendChange(i + 1), ScanEffect::Nothing)
            } else {
                (next_snapshot(cycle, 0), ScanEffect::Commit)
            },
        },
        Step::SendSnapshot(i) => (next_snapshot(cycle, i + 1), ScanEffect::Nothing),
        Step::SendPackages => (Step::Rest, ScanEffect::Nothing),
        Step::Rest => (Step::Rest, ScanEffect::Nothing),
    }
}

/// How many steps can follow one.
pub open spec fn steps_left(cycle: Cycle, step: Step) -> int {
    let packages = if cycle.packages {
        1int
    } else {
        0
    };
    match step {
        Step::SendChange(i) => cycle.changes - i + cycle.snapshots + packages,
        Step::SendSnapshot(i) => cycle.snapshots - i + packages,
        Step::SendPackages => packages,
        Step::Rest => 0,
    }
}

// ---------------------------------------------------------------------------
// Laws
// ---------------------------------------------------------------------------

/// Every container that is reported goes to one lane, and only the say of its
/// owner takes it to the services.
pub proof fn only_consent_makes_a_service(all: Seq<ContainerView>, i: int)
    requires
        0 <= i < all.len(),
    ensures
        routed(all, true).contains(all[i]) <==> all[i].explicit_service(),
        routed(all, false).contains(all[i]) <==> !all[i].explicit_service(),
{
    let yes = |c: ContainerView| c.explicit_service() == true;
    let no = |c: ContainerView| c.explicit_service() == false;
    if all[i].explicit_service() {
        all.lemma_filter_contains(yes, i);
        if routed(all, false).contains(all[i]) {
            let out = routed(all, false);
            let j = choose|j: int| 0 <= j < out.len() && out[j] == all[i];
            all.lemma_filter_pred(no, j);
        }
    } else {
        all.lemma_filter_contains(no, i);
        if routed(all, true).contains(all[i]) {
            let out = routed(all, true);
            let j = choose|j: int| 0 <= j < out.len() && out[j] == all[i];
            all.lemma_filter_pred(yes, j);
        }
    }
}

/// Whether a step has a place in a cycle.
pub open spec fn in_cycle(cycle: Cycle, step: Step) -> bool {
    match step {
        Step::SendChange(i) => i < cycle.changes,
        Step::SendSnapshot(i) => i < cycle.snapshots,
        Step::SendPackages => cycle.packages,
        Step::Rest => true,
    }
}

/// Every cycle comes to rest: each step but rest is followed by one of the cycle,
/// with fewer to come.
pub proof fn cycles_come_to_rest(cycle: Cycle, step: Step, reply: LaneReply)
    requires
        in_cycle(cycle, step),
        !(step is Rest),
    ensures
        in_cycle(cycle, after_step(cycle, step, reply).0),
        0 <= steps_left(cycle, after_step(cycle, step, reply).0) < steps_left(cycle, step),
{
}

/// What the control plane did not take is reported again: the scan is taken only
/// after the last of its changes was, and whatever becomes of the changes, the
/// lanes that are reported whole follow.
pub proof fn unreported_changes_stay(cycle: Cycle, step: Step, reply: LaneReply)
    requires
        in_cycle(cycle, step),
    ensures
        after_step(cycle, step, reply).1 is Commit ==> {
            &&& step matches Step::SendChange(i) && i + 1 == cycle.changes
            &&& reply is Accepted
        },
        step is SendChange && reply is Failed ==> {
            &&& after_step(cycle, step, reply).1 is Rollback
            &&& after_step(cycle, step, reply).0 == after_snapshots(cycle, 0)
        },
{
}

} // verus!
