//! What values are shown as: a view holds what the value holds, under the same names.
use vstd::prelude::*;
use vstd::string::*;

use crate::bootstrap::RuntimeContext;
use crate::buffer::{buffered_views, BufferedEntry};
use crate::checkpoint::{Checkpoint, StreamingCheckpoint};
use crate::config::ebpf::{target_views, EbpfTargetConfig};
use crate::config::fields::{error_views, ConfigFieldError};
use crate::config::logs::{
    collect_views, multiline_view, CollectDiagnostic, CollectStreamConfig, LogStreamConfig,
    MultilineConfig, ResolvedCollectStreams,
};
use crate::config::metrics::{metrics_views, MetricsStreamConfig};
use crate::config::services::{description_views, CheckpointAdoption, ServiceDescription};
use crate::config::streaming::{StreamAccessMethod, StreamAccessView, StreamingSourceConfig};
use crate::config::telemetry::{TelemetryConfig, TelemetryContext};
use crate::cri::DockerJsonRecord;
use crate::discovery::cache::{CollectMatch, MatchView, ResolvedAccess};
use crate::discovery::container::Container;
use crate::discovery::cri::{listed_views, sandbox_views, CrictlContainer, PodSandbox};
use crate::discovery::event_log::{channel_views, EventLogChannel};
use crate::discovery::packages::{package_views, Package};
use crate::discovery::ports::{owner_views, port_views, ListeningPort, SocketOwner};
use crate::discovery::processes::{process_views, Process};
use crate::discovery::systemd::{service_views, SystemdService};
use crate::discovery::windows_services::ServiceDraft;
use crate::json::{views, Json};
use crate::outline::{outline_views, Outline};
use crate::release_manifest::{asset_views, ManifestAsset};
use crate::strmap::{text_at, texts};
use crate::text::{opt_str_view, opt_view, strings, strs};

verus! {

/// How the agent is run is shown by its own fields.
pub proof fn runs_are_shown_as_they_are(x: RuntimeContext)
    ensures
        x@.in_container == x.in_container,
        x@.container_runtime == opt_view(x.container_runtime),
        x@.deployment_type == x.deployment_type@,
        x@.namespace == opt_view(x.namespace),
        x@.deployment == opt_view(x.deployment),
        x@.pod_name == opt_view(x.pod_name),
        x@.node_name == opt_view(x.node_name),
        x@.container == opt_view(x.container),
{
}

/// A buffered entry is shown by its own fields.
pub proof fn entries_are_shown_as_they_are(x: BufferedEntry)
    ensures
        x@.sequence == x.sequence,
        x@.timestamp_ns == x.timestamp_ns as int,
        x@.data == x.data@,
{
}

/// A checkpoint is shown by its own fields.
pub proof fn checkpoints_are_shown_as_they_are(x: Checkpoint)
    ensures
        x@.path == x.path@,
        x@.offset == x.offset,
        x@.inode == x.inode,
        x@.updated_at == x.updated_at,
        x.streaming is Some ==> x@.streaming == Some(x.streaming->0@),
        x.streaming is None ==> x@.streaming is None,
{
}

/// A target of probes is shown by its own fields.
pub proof fn targets_are_shown_as_they_are(x: EbpfTargetConfig)
    ensures
        x@.log_source_id == x.log_source_id@,
        x@.service_name == x.service_name@,
        x@.systemd_unit == opt_view(x.systemd_unit),
        x@.open_ports == x.open_ports@,
        x@.archive_id == x.archive_id@,
        x@.repo_id == x.repo_id@,
        x@.protocols == strings(x.protocols@),
        x@.subbox_endpoint == x.subbox_endpoint@,
{
}

/// A stream of a file is shown by its own fields.
pub proof fn file_streams_are_shown_as_they_are(x: LogStreamConfig)
    ensures
        x@.log_source_id == x.log_source_id@,
        x@.path == x.path@,
        x@.endpoint == x.endpoint@,
        x@.archive_id == x.archive_id@,
        x@.repo_id == x.repo_id@,
        x@.stamp_resource_identifier == x.stamp_resource_identifier,
        x@.source_format == x.source_format,
        x@.multiline == multiline_view(x.multiline),
        x@.config_hash == x.config_hash@,
{
}

/// A directive is shown by its own fields.
pub proof fn directives_are_shown_as_they_are(x: CollectStreamConfig)
    ensures
        x@.log_source_id == x.log_source_id@,
        x@.locator == x.locator@,
        x@.matching_strategy == x.matching_strategy@,
        x@.container_identifier == x.container_identifier@,
        x@.subbox_endpoint == x.subbox_endpoint@,
        x@.archive_id == x.archive_id@,
        x@.repo_id == x.repo_id@,
        x@.stamp_resource_identifier == x.stamp_resource_identifier,
        x@.multiline == multiline_view(x.multiline),
        x@.config_hash == x.config_hash@,
{
}

/// A diagnostic is shown by its own fields.
pub proof fn diagnostics_are_shown_as_they_are(x: CollectDiagnostic)
    ensures
        x@.log_source_id == x.log_source_id@,
        x@.status == x.status,
        x@.detail == x.detail@,
{
}

/// A stream of metrics is shown by its own fields.
pub proof fn metrics_are_shown_as_they_are(x: MetricsStreamConfig)
    ensures
        x@.metric_source_id == x.metric_source_id@,
        x@.subbox_endpoint == x.subbox_endpoint@,
        x@.archive_id == x.archive_id@,
        x@.repo_id == x.repo_id@,
        x@.collection_interval_secs == x.collection_interval_secs,
        x@.send_interval_secs == x.send_interval_secs,
{
}

/// An adoption is shown by its own fields.
pub proof fn adoptions_are_shown_as_they_are(x: CheckpointAdoption)
    ensures
        x@.legacy_log_source_id == x.legacy_log_source_id@,
        x@.log_source_id == x.log_source_id@,
{
}

/// A description of a service is shown by its own fields.
pub proof fn descriptions_are_shown_as_they_are(x: ServiceDescription)
    ensures
        x@.service_slug == x.service_slug@,
        x@.selector == texts(x.selector@),
        x@.collect == x.collect@,
{
}

/// A streaming source is shown by its own fields.
pub proof fn streaming_sources_are_shown_as_they_are(x: StreamingSourceConfig)
    ensures
        x@.log_source_id == x.log_source_id@,
        x@.access_method == x.access_method@,
        x@.endpoint == x.endpoint@,
        x@.archive_id == x.archive_id@,
        x@.repo_id == x.repo_id@,
        x@.stamp_resource_identifier == x.stamp_resource_identifier,
        x@.multiline == multiline_view(x.multiline),
        x@.config_hash == x.config_hash@,
{
}

/// A tenant's context is shown by its own fields.
pub proof fn contexts_are_shown_as_they_are(x: TelemetryContext)
    ensures
        x@.tenant_id == x.tenant_id@,
        x@.tenant_name == x.tenant_name@,
        x@.customer_archive_id == x.customer_archive_id@,
{
}

/// A telemetry section is shown by its own fields.
pub proof fn telemetry_are_shown_as_they_are(x: TelemetryConfig)
    ensures
        x@.enabled == x.enabled,
        x@.subbox_endpoint == x.subbox_endpoint@,
        x@.archive_id == x.archive_id@,
        x@.repo_id == x.repo_id@,
        x@.min_level == x.min_level@,
        x@.context == x.context@,
        x@.config_hash == x.config_hash@,
{
}

/// A record of a log is shown by its own fields.
pub proof fn records_are_shown_as_they_are(x: DockerJsonRecord)
    ensures
        x@.payload == x.payload@,
        x@.stream == x.stream,
        x@.partial == x.partial,
{
}

/// A resolved access is shown by its own fields.
pub proof fn accesses_are_shown_as_they_are(x: ResolvedAccess)
    ensures
        x@.access_method == x.access_method,
        x@.matched_via == x.matched_via,
        x@.stable_identity == x.stable_identity@,
        x@.access_locator == x.access_locator@,
{
}

/// A container is shown by its own fields.
pub proof fn containers_are_shown_as_they_are(x: Container)
    ensures
        x@.id == x.id@,
        x@.name == x.name@,
        x@.service_name == x.service_name@,
        x@.service_name_explicit == x.service_name_explicit,
        x@.image == x.image@,
        x@.state == x.state@,
        x@.labels == texts(x.labels@),
        x@.env == strings(x.env@),
        x@.runtime == x.runtime@,
        x@.log_path == x.log_path@,
        x@.log_format == x.log_format@,
        x@.pod_uid == x.pod_uid@,
        x@.pod_name == x.pod_name@,
        x@.namespace == x.namespace@,
        x@.node_name == x.node_name@,
        x@.deployment == x.deployment@,
        x@.workload_kind == x.workload_kind@,
        x@.container_id == x.container_id@,
        x@.container_name == x.container_name@,
        x@.runtime_process == x.runtime_process,
{
}

/// A listed container is shown by its own fields.
pub proof fn listed_containers_are_shown_as_they_are(x: CrictlContainer)
    ensures
        x@.id == opt_view(x.id),
        x@.pod_sandbox_id == opt_view(x.pod_sandbox_id),
        x@.name == opt_view(x.name),
        x@.image_ref == opt_view(x.image_ref),
        x@.state == opt_view(x.state),
        x@.labels == texts(x.labels@),
{
}

/// A listed sandbox is shown by its own fields.
pub proof fn sandboxes_are_shown_as_they_are(x: PodSandbox)
    ensures
        x@.id == x.id@,
        x@.namespace == x.namespace@,
        x@.pod_name == x.pod_name@,
        x@.pod_uid == x.pod_uid@,
{
}

/// A channel is shown by its own fields.
pub proof fn channels_are_shown_as_they_are(x: EventLogChannel)
    ensures
        x@.channel == x.channel@,
        x@.record_count == x.record_count,
{
}

/// A package is shown by its own fields.
pub proof fn packages_are_shown_as_they_are(x: Package)
    ensures
        x@.name == x.name@,
        x@.version == x.version@,
        x@.manager == x.manager@,
{
}

/// A port is shown by its own fields.
pub proof fn ports_are_shown_as_they_are(x: ListeningPort)
    ensures
        x@.port == x.port,
        x@.protocol == x.protocol@,
        x@.process == x.process@,
        x@.pid == x.pid,
{
}

/// An owner of a socket is shown by its own fields.
pub proof fn owners_are_shown_as_they_are(x: SocketOwner)
    ensures
        x@.inode == x.inode,
        x@.pid == x.pid,
        x@.process == x.process@,
{
}

/// A process is shown by its own fields.
pub proof fn processes_are_shown_as_they_are(x: Process)
    ensures
        x@.pid == x.pid,
        x@.user == x.user@,
        x@.cpu == x.cpu@,
        x@.mem == x.mem@,
        x@.command == x.command@,
{
}

/// A service is shown by its own fields.
pub proof fn services_are_shown_as_they_are(x: SystemdService)
    ensures
        x@.name == x.name@,
        x@.load_state == x.load_state@,
        x@.active_state == x.active_state@,
        x@.sub_state == x.sub_state@,
        x@.description == x.description@,
        x@.service_name == x.service_name@,
        x@.main_pid == x.main_pid,
{
}

/// A draft of a service is shown by its own fields.
pub proof fn drafts_are_shown_as_they_are(x: ServiceDraft)
    ensures
        x@.name == opt_view(x.name),
        x@.display_name == opt_view(x.display_name),
        x@.service_type == opt_view(x.service_type),
        x@.state == opt_view(x.state),
        x@.pid == x.pid,
{
}

/// An asset is shown by its own fields.
pub proof fn assets_are_shown_as_they_are(x: ManifestAsset)
    ensures
        x@.name == x.name@,
        x@.binary == x.binary@,
        x@.platform == x.platform@,
        x@.download_url == x.download_url@,
        x@.sha256 == x.sha256@,
        x@.signature == x.signature@,
        x@.sigstore_bundle_url == x.sigstore_bundle_url@,
{
}

/// A list is shown item by item, and in order.
pub proof fn lists_are_shown_item_by_item(
    a0: Seq<BufferedEntry>,
    a1: Seq<Container>,
    a2: Seq<EbpfTargetConfig>,
    a3: Seq<ConfigFieldError>,
    a4: Seq<CollectStreamConfig>,
    a5: Seq<MetricsStreamConfig>,
    a6: Seq<ServiceDescription>,
    a7: Seq<Container>,
    a8: Seq<CrictlContainer>,
    a9: Seq<PodSandbox>,
    a10: Seq<EventLogChannel>,
    a11: Seq<Container>,
    a12: Seq<Package>,
    a13: Seq<ListeningPort>,
    a14: Seq<SocketOwner>,
    a15: Seq<Process>,
    a16: Seq<SystemdService>,
    a17: Seq<Json>,
    a18: Seq<Outline>,
    a19: Seq<ManifestAsset>,
    texts_of: Seq<String>,
    slices: Seq<&str>,
    i: int,
)
    ensures
        buffered_views(a0).len() == a0.len(),
        0 <= i < a0.len() ==> buffered_views(a0)[i] == a0[i]@,
        crate::census_entries::container_views(a1).len() == a1.len(),
        0 <= i < a1.len() ==> crate::census_entries::container_views(a1)[i] == a1[i]@,
        target_views(a2).len() == a2.len(),
        0 <= i < a2.len() ==> target_views(a2)[i] == a2[i]@,
        error_views(a3).len() == a3.len(),
        0 <= i < a3.len() ==> error_views(a3)[i] == a3[i]@,
        collect_views(a4).len() == a4.len(),
        0 <= i < a4.len() ==> collect_views(a4)[i] == a4[i]@,
        metrics_views(a5).len() == a5.len(),
        0 <= i < a5.len() ==> metrics_views(a5)[i] == a5[i]@,
        description_views(a6).len() == a6.len(),
        0 <= i < a6.len() ==> description_views(a6)[i] == a6[i]@,
        crate::discovery::cache::container_views(a7).len() == a7.len(),
        0 <= i < a7.len() ==> crate::discovery::cache::container_views(a7)[i] == a7[i]@,
        listed_views(a8).len() == a8.len(),
        0 <= i < a8.len() ==> listed_views(a8)[i] == a8[i]@,
        sandbox_views(a9).len() == a9.len(),
        0 <= i < a9.len() ==> sandbox_views(a9)[i] == a9[i]@,
        channel_views(a10).len() == a10.len(),
        0 <= i < a10.len() ==> channel_views(a10)[i] == a10[i]@,
        crate::discovery::kubernetes::container_views(a11).len() == a11.len(),
        0 <= i < a11.len() ==> crate::discovery::kubernetes::container_views(a11)[i] == a11[i]@,
        package_views(a12).len() == a12.len(),
        0 <= i < a12.len() ==> package_views(a12)[i] == a12[i]@,
        port_views(a13).len() == a13.len(),
        0 <= i < a13.len() ==> port_views(a13)[i] == a13[i]@,
        owner_views(a14).len() == a14.len(),
        0 <= i < a14.len() ==> owner_views(a14)[i] == a14[i]@,
        process_views(a15).len() == a15.len(),
        0 <= i < a15.len() ==> process_views(a15)[i] == a15[i]@,
        service_views(a16).len() == a16.len(),
        0 <= i < a16.len() ==> service_views(a16)[i] == a16[i]@,
        views(a17).len() == a17.len(),
        0 <= i < a17.len() ==> views(a17)[i] == a17[i]@,
        outline_views(a18).len() == a18.len(),
        0 <= i < a18.len() ==> outline_views(a18)[i] == a18[i]@,
        asset_views(a19).len() == a19.len(),
        0 <= i < a19.len() ==> asset_views(a19)[i] == a19[i]@,
        strings(texts_of).len() == texts_of.len(),
        0 <= i < texts_of.len() ==> strings(texts_of)[i] == texts_of[i]@,
        strs(slices).len() == slices.len(),
        0 <= i < slices.len() ==> strs(slices)[i] == slices[i]@,
{
}

/// Settings of several lines are shown by their own fields, and no settings as none.
pub proof fn multiline_settings_are_shown_as_they_are(x: MultilineConfig)
    ensures
        multiline_view(None) is None,
        multiline_view(Some(x)) is Some,
        multiline_view(Some(x))->0.start_pattern == x.start_pattern@,
        multiline_view(Some(x))->0.max_lines == x.max_lines,
        multiline_view(Some(x))->0.timeout_secs == x.timeout_secs,
{
}

/// A checkpoint of a stream is shown by its own fields.
pub proof fn streaming_checkpoints_are_shown_as_they_are(x: StreamingCheckpoint)
    ensures
        x@.source_id == x.source_id@,
        x.token is Journald ==> x@.journald_cursor == Some(x.token->cursor@),
        x@.updated_at == x.updated_at,
{
}

/// What directives came to is shown lane by lane.
pub proof fn lanes_are_shown_as_they_are(x: ResolvedCollectStreams, i: int)
    ensures
        x@.file_streams.len() == x.file_streams@.len(),
        0 <= i < x.file_streams@.len() ==> x@.file_streams[i] == x.file_streams@[i]@,
        x@.streaming_sources.len() == x.streaming_sources@.len(),
        0 <= i < x.streaming_sources@.len() ==> x@.streaming_sources[i]
            == x.streaming_sources@[i]@,
        x@.diagnostics.len() == x.diagnostics@.len(),
        0 <= i < x.diagnostics@.len() ==> x@.diagnostics[i] == x.diagnostics@[i]@,
        x@.checkpoint_adoptions.len() == x.checkpoint_adoptions@.len(),
        0 <= i < x.checkpoint_adoptions@.len() ==> x@.checkpoint_adoptions[i]
            == x.checkpoint_adoptions@[i]@,
{
}

/// A way of access is shown as what it is, with what it leads to.
pub proof fn ways_of_access_are_shown_as_they_are(s: String)
    ensures
        (StreamAccessMethod::DockerApi { container_id: s })@ == StreamAccessView::DockerApi(s@),
        (StreamAccessMethod::Journald { unit: s })@ == StreamAccessView::Journald(s@),
        (StreamAccessMethod::WindowsEventLog { channel: s })@ == StreamAccessView::WindowsEventLog(
            s@,
        ),
{
}

/// An error of a field is shown by its own parts.
pub proof fn field_errors_are_shown_as_they_are(x: ConfigFieldError)
    ensures
        x@.section == x->section@,
        x@.entry_id == opt_view(x->entry_id),
        x@.field == x->field@,
        x@.expected == x->expected@,
        x@.actual == opt_view(x->actual),
{
}

/// A match is shown as what it is, with what was matched or how many were.
pub proof fn matches_are_shown_as_they_are(a: ResolvedAccess, n: usize)
    ensures
        CollectMatch::Matched(a)@ == MatchView::Matched(a@),
        (CollectMatch::Ambiguous { candidates: n })@ == MatchView::Ambiguous(n as nat),
        CollectMatch::NotFound@ == MatchView::NotFound,
{
}

/// What may be a text is shown as one if it is.
pub proof fn texts_are_shown_if_they_are(s: String, t: &str, m: Map<Seq<char>, String>, key: Seq<char>)
    ensures
        opt_view(Some(s)) == Some(s@),
        opt_view(None) is None,
        opt_str_view(Some(t)) == Some(t@),
        opt_str_view(None) is None,
        m.contains_key(key) ==> texts(m).contains_key(key) && texts(m)[key] == m[key]@ && text_at(
            m,
            key,
        ) == Some(m[key]@),
        !m.contains_key(key) ==> !texts(m).contains_key(key) && text_at(m, key) is None,
{
}

} // verus!
