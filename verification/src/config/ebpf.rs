//! What the kernel probes capture.
use vstd::prelude::*;

use crate::config::fields::{
    bool_field_or, bool_or, filled_field, number_field, opt_json_view, port_list_field, ports_in,
    required_config_key, required_config_string, required_string_field, string_array_field,
    texts_in, u64_field, ArchiveId, FieldContext, LogSourceId, Port, RepoId, ServiceName,
    WireEndpoint,
};
use crate::config::unified::{checksum_of, compute_checksum, UnifiedConfig};
use crate::json::{entry_views, Json, JsonView};
use crate::seqs::{kept, lemma_kept_step};
use crate::text::{opt_view, strings};

verus! {

/// One service whose traffic is captured.
#[derive(Debug, PartialEq, Eq)]
pub struct EbpfTargetConfig {
    pub log_source_id: String,
    pub service_name: String,
    pub systemd_unit: Option<String>,
    pub open_ports: Vec<u16>,
    pub archive_id: String,
    pub repo_id: String,
    pub protocols: Vec<String>,
    pub subbox_endpoint: String,
}

pub struct EbpfTargetView {
    pub log_source_id: Seq<char>,
    pub service_name: Seq<char>,
    pub systemd_unit: Option<Seq<char>>,
    pub open_ports: Seq<u16>,
    pub archive_id: Seq<char>,
    pub repo_id: Seq<char>,
    pub protocols: Seq<Seq<char>>,
    pub subbox_endpoint: Seq<char>,
}

impl View for EbpfTargetConfig {
    type V = EbpfTargetView;

    open spec fn view(&self) -> EbpfTargetView {
        EbpfTargetView {
            log_source_id: self.log_source_id@,
            service_name: self.service_name@,
            systemd_unit: opt_view(self.systemd_unit),
            open_ports: self.open_ports@,
            archive_id: self.archive_id@,
            repo_id: self.repo_id@,
            protocols: strings(self.protocols@),
            subbox_endpoint: self.subbox_endpoint@,
        }
    }
}

pub open spec fn target_views(targets: Seq<EbpfTargetConfig>) -> Seq<EbpfTargetView> {
    targets.map_values(|t: EbpfTargetConfig| t@)
}

/// What is captured. The flows between hosts are switched on and off apart from
/// the targets.
#[derive(Debug, PartialEq, Eq)]
pub struct EbpfSectionConfig {
    pub enabled: bool,
    pub receiver_port: u16,
    pub network_flows_enabled: bool,
    pub network_cidrs: Vec<String>,
    pub targets: Vec<EbpfTargetConfig>,
    /// The checksum of the section: a change restarts the probes.
    pub config_hash: String,
}

/// The port that traces are received on over HTTP, unless another is given.
pub const EBPF_DEFAULT_RECEIVER_PORT: u16 = 4318;

/// The target that an entry describes. It needs a key and the four texts that
/// name and route it, and a systemd unit that is there has to be a filled text:
/// a malformed one never makes the target a container.
pub open spec fn target_of(entry: (Seq<char>, JsonView)) -> Option<EbpfTargetView> {
    let (key, target) = entry;
    let unit = target.get("systemd_unit"@);
    if key.len() > 0 && filled_field(target, "service_name"@) is Some && filled_field(
        target,
        "archive_id"@,
    ) is Some && filled_field(target, "repo_id"@) is Some && filled_field(
        target,
        "subbox_endpoint"@,
    ) is Some && (unit is Some ==> filled_field(target, "systemd_unit"@) is Some) {
        Some(
            EbpfTargetView {
                log_source_id: key,
                service_name: filled_field(target, "service_name"@)->0,
                systemd_unit: filled_field(target, "systemd_unit"@),
                open_ports: ports_in(target.get("open_ports"@)),
                archive_id: filled_field(target, "archive_id"@)->0,
                repo_id: filled_field(target, "repo_id"@)->0,
                protocols: texts_in(target, "protocols"@),
                subbox_endpoint: filled_field(target, "subbox_endpoint"@)->0,
            },
        )
    } else {
        None
    }
}

/// The targets of a section.
pub open spec fn targets_of(targets: Option<JsonView>) -> Seq<EbpfTargetView> {
    match targets {
        Some(JsonView::Object(entries)) => kept(
            entries,
            |entry: (Seq<char>, JsonView)| target_of(entry),
        ),
        _ => seq![],
    }
}

/// The port that a section names, where it is one.
pub open spec fn receiver_port_of(section: JsonView) -> u16 {
    match number_field(section, "receiver_port"@) {
        Some(n) => if n <= u16::MAX {
            n as u16
        } else {
            EBPF_DEFAULT_RECEIVER_PORT
        },
        None => EBPF_DEFAULT_RECEIVER_PORT,
    }
}

/// Whether a section is read as it stands.
pub open spec fn reads_section(section: JsonView, c: EbpfSectionConfig) -> bool {
    let flows = section.get("network_flows"@);
    &&& c.enabled == bool_or(section, "enabled"@, false)
    &&& c.receiver_port == receiver_port_of(section)
    &&& c.network_flows_enabled == (flows is Some && bool_or(flows->0, "enabled"@, false))
    &&& strings(c.network_cidrs@) == (if flows is Some {
        texts_in(flows->0, "cidrs"@)
    } else {
        seq![]
    })
    &&& target_views(c.targets@) == targets_of(section.get("targets"@))
    &&& c.config_hash@ == checksum_of(section)
}

fn target_from_entry(key: &str, target: &Json) -> (r: Option<EbpfTargetConfig>)
    ensures
        match r {
            Some(t) => target_of((key@, target@)) == Some(t@),
            None => target_of((key@, target@)) is None,
        },
{
    let ctx = FieldContext::entry("ebpf.targets", key);
    let log_source_id = match required_config_key::<LogSourceId>(key, ctx) {
        Some(v) => v.0,
        None => {
            return None;
        },
    };
    let service_name = match required_config_string::<ServiceName>(target, "service_name", ctx) {
        Some(v) => v.0,
        None => {
            return None;
        },
    };
    let archive_id = match required_config_string::<ArchiveId>(target, "archive_id", ctx) {
        Some(v) => v.0,
        None => {
            return None;
        },
    };
    let repo_id = match required_config_string::<RepoId>(target, "repo_id", ctx) {
        Some(v) => v.0,
        None => {
            return None;
        },
    };
    let subbox_endpoint = match required_config_string::<WireEndpoint>(
        target,
        "subbox_endpoint",
        ctx,
    ) {
        Some(v) => v.0,
        None => {
            return None;
        },
    };
    let systemd_unit = match target.get("systemd_unit") {
        Some(_) => match required_string_field(target, "systemd_unit", ctx) {
            Some(unit) => Some(unit),
            None => {
                return None;
            },
        },
        None => None,
    };
    let open_ports = parse_port_list(target.get("open_ports"), ctx);
    let protocols = string_array_field(target, "protocols");
    Some(
        EbpfTargetConfig {
            log_source_id,
            service_name,
            systemd_unit,
            open_ports,
            archive_id,
            repo_id,
            protocols,
            subbox_endpoint,
        },
    )
}

/// The ports of a target: a text with commas between them, or an array.
fn parse_port_list(value: Option<&Json>, ctx: FieldContext<'_>) -> (r: Vec<u16>)
    ensures
        r@ == ports_in(opt_json_view(value)),
{
    port_list_field(value, "open_ports", ctx)
}

/// The targets, without the entries that cannot be routed.
pub fn parse_ebpf_targets(targets: Option<&Json>) -> (r: Vec<EbpfTargetConfig>)
    ensures
        target_views(r@) == targets_of(opt_json_view(targets)),
{
    let mut out: Vec<EbpfTargetConfig> = Vec::new();
    assert(target_views(out@) =~= seq![]);
    let entries = match targets {
        Some(v) => match v.as_object() {
            Some(entries) => entries,
            None => {
                return out;
            },
        },
        None => {
            return out;
        },
    };
    let ghost rows = entry_views(entries@);
    let ghost f = |entry: (Seq<char>, JsonView)| target_of(entry);
    let mut i: usize = 0;
    assert(target_views(out@) =~= kept(rows.take(0), f));
    while i < entries.len()
        invariant
            i <= entries@.len(),
            rows == entry_views(entries@),
            f == (|entry: (Seq<char>, JsonView)| target_of(entry)),
            target_views(out@) == kept(rows.take(i as int), f),
        decreases entries.len() - i,
    {
        proof {
            lemma_kept_step(rows, f, i as int);
            assert(rows[i as int] == (entries@[i as int].0@, entries@[i as int].1@));
        }
        let ghost before = target_views(out@);
        if let Some(target) = target_from_entry(entries[i].0.as_str(), &entries[i].1) {
            out.push(target);
            assert(target_views(out@) =~= before.push(target@));
        }
        i = i + 1;
    }
    assert(rows.take(i as int) =~= rows);
    out
}

/// What a configuration says of the probes, if it says anything. A section that
/// is switched off is there all the same, so that running probes are stopped.
pub fn ebpf_section(config: &UnifiedConfig) -> (r: Option<EbpfSectionConfig>)
    ensures
        match config.raw@.get("ebpf"@) {
            Some(section) => r is Some && reads_section(section, r->0),
            None => r is None,
        },
{
    let section = match config.section("ebpf") {
        Some(section) => section,
        None => {
            return None;
        },
    };
    let ctx = FieldContext::section("ebpf");
    let enabled = bool_field_or(section, "enabled", false);
    let receiver_port = match u64_field(section, "receiver_port") {
        Some(n) => match Port::from_u64(n, "receiver_port", ctx) {
            Some(port) => port.get(),
            None => EBPF_DEFAULT_RECEIVER_PORT,
        },
        None => EBPF_DEFAULT_RECEIVER_PORT,
    };
    let (network_flows_enabled, network_cidrs) = match section.get("network_flows") {
        Some(flows) => (bool_field_or(flows, "enabled", false), string_array_field(flows, "cidrs")),
        None => {
            let none: Vec<String> = Vec::new();
            assert(strings(none@) =~= seq![]);
            (false, none)
        },
    };
    let targets = parse_ebpf_targets(section.get("targets"));
    let config_hash = compute_checksum(section);
    Some(
        EbpfSectionConfig {
            enabled,
            receiver_port,
            network_flows_enabled,
            network_cidrs,
            targets,
            config_hash,
        },
    )
}

/// A systemd unit that is there but is no filled text drops the target.
pub proof fn malformed_units_drop_the_target(key: Seq<char>, target: JsonView)
    requires
        target.get("systemd_unit"@) is Some,
        filled_field(target, "systemd_unit"@) is None,
    ensures
        target_of((key, target)) is None,
{
}

} // verus!
