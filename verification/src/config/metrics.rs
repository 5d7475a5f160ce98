//! Metrics streams.
use vstd::prelude::*;

use crate::config::fields::{
    empty_key, error_views, filled_field, not_filled, positive_or, positive_u64_field_or,
    required_config_key_result, required_config_string_result, ArchiveId, ConfigFieldError,
    ConfigParseReport, ErrorView, FieldContext, MetricSourceId, RepoId, WireEndpoint,
};
use crate::config::unified::UnifiedConfig;
use crate::json::{entry_views, Json, JsonView};
use crate::seqs::{kept, lemma_kept_step};

verus! {

/// A metrics stream.
#[derive(Debug)]
pub struct MetricsStreamConfig {
    pub metric_source_id: String,
    pub subbox_endpoint: String,
    pub archive_id: String,
    pub repo_id: String,
    pub collection_interval_secs: u64,
    pub send_interval_secs: u64,
}

/// What a metrics stream says.
pub struct MetricsView {
    pub metric_source_id: Seq<char>,
    pub subbox_endpoint: Seq<char>,
    pub archive_id: Seq<char>,
    pub repo_id: Seq<char>,
    pub collection_interval_secs: u64,
    pub send_interval_secs: u64,
}

impl View for MetricsStreamConfig {
    type V = MetricsView;

    open spec fn view(&self) -> MetricsView {
        MetricsView {
            metric_source_id: self.metric_source_id@,
            subbox_endpoint: self.subbox_endpoint@,
            archive_id: self.archive_id@,
            repo_id: self.repo_id@,
            collection_interval_secs: self.collection_interval_secs,
            send_interval_secs: self.send_interval_secs,
        }
    }
}

pub open spec fn metrics_views(streams: Seq<MetricsStreamConfig>) -> Seq<MetricsView> {
    streams.map_values(|s: MetricsStreamConfig| s@)
}

/// The place of an entry with this key.
pub open spec fn metrics_place(key: Seq<char>, e: ErrorView) -> ErrorView {
    ErrorView { section: "metrics"@, entry_id: Some(key), ..e }
}

/// The first thing that is wrong with an entry, if something is: the key is
/// empty, or one of the three texts that route the stream is missing.
pub open spec fn metrics_error(entry: (Seq<char>, JsonView)) -> Option<ErrorView> {
    let (key, value) = entry;
    let ctx = FieldContext { section: "metrics", entry_id: None };
    let place = |e: ErrorView| metrics_place(key, e);
    if key.len() == 0 {
        Some(place(empty_key(ctx)))
    } else if filled_field(value, "subbox_endpoint"@) is None {
        Some(place(not_filled(value, "subbox_endpoint"@, ctx)))
    } else if filled_field(value, "archive_id"@) is None {
        Some(place(not_filled(value, "archive_id"@, ctx)))
    } else if filled_field(value, "repo_id"@) is None {
        Some(place(not_filled(value, "repo_id"@, ctx)))
    } else {
        None
    }
}

/// The stream that an entry describes, if nothing is wrong with it. An interval
/// that is missing or zero gets its default.
pub open spec fn metrics_stream(entry: (Seq<char>, JsonView)) -> Option<MetricsView> {
    let (key, value) = entry;
    if metrics_error(entry) is Some {
        None
    } else {
        Some(
            MetricsView {
                metric_source_id: key,
                subbox_endpoint: filled_field(value, "subbox_endpoint"@)->0,
                archive_id: filled_field(value, "archive_id"@)->0,
                repo_id: filled_field(value, "repo_id"@)->0,
                collection_interval_secs: positive_or(value, "collection_interval_secs"@, 1),
                send_interval_secs: positive_or(value, "send_interval_secs"@, 10),
            },
        )
    }
}

/// The entries of the section of metrics.
pub open spec fn metrics_entries(config: JsonView) -> Seq<(Seq<char>, JsonView)> {
    match config.get("metrics"@) {
        Some(JsonView::Object(entries)) => entries,
        _ => seq![],
    }
}

/// The stream that an entry describes, or the first thing that is wrong with it.
pub fn metrics_stream_from_entry(key: &str, value: &Json) -> (r: Result<
    MetricsStreamConfig,
    ConfigFieldError,
>)
    ensures
        match r {
            Ok(s) => metrics_stream((key@, value@)) == Some(s@),
            Err(e) => metrics_error((key@, value@)) == Some(e@),
        },
{
    let ctx = FieldContext::entry("metrics", key);
    let id = match required_config_key_result::<MetricSourceId>(key, ctx) {
        Ok(id) => id.0,
        Err(e) => {
            return Err(e);
        },
    };
    let subbox_endpoint = match required_config_string_result::<WireEndpoint>(
        value,
        "subbox_endpoint",
        ctx,
    ) {
        Ok(v) => v.0,
        Err(e) => {
            return Err(e);
        },
    };
    let archive_id = match required_config_string_result::<ArchiveId>(value, "archive_id", ctx) {
        Ok(v) => v.0,
        Err(e) => {
            return Err(e);
        },
    };
    let repo_id = match required_config_string_result::<RepoId>(value, "repo_id", ctx) {
        Ok(v) => v.0,
        Err(e) => {
            return Err(e);
        },
    };
    let collection_interval_secs = positive_u64_field_or(value, "collection_interval_secs", 1);
    let send_interval_secs = positive_u64_field_or(value, "send_interval_secs", 10);
    Ok(
        MetricsStreamConfig {
            metric_source_id: id,
            subbox_endpoint,
            archive_id,
            repo_id,
            collection_interval_secs,
            send_interval_secs,
        },
    )
}

/// The metrics streams of a configuration, and the errors of the entries that
/// describe none.
pub fn all_metrics_streams_with_diagnostics(config: &UnifiedConfig) -> (r: ConfigParseReport<
    MetricsStreamConfig,
>)
    ensures
        metrics_views(r.values@) == kept(
            metrics_entries(config.raw@),
            |entry: (Seq<char>, JsonView)| metrics_stream(entry),
        ),
        error_views(r.errors@) == kept(
            metrics_entries(config.raw@),
            |entry: (Seq<char>, JsonView)| metrics_error(entry),
        ),
{
    let mut report: ConfigParseReport<MetricsStreamConfig> = ConfigParseReport::default();
    assert(metrics_views(report.values@) =~= seq![]);
    assert(error_views(report.errors@) =~= seq![]);
    let entries = match config.section("metrics") {
        Some(v) => match v.as_object() {
            Some(entries) => entries,
            None => {
                return report;
            },
        },
        None => {
            return report;
        },
    };
    let ghost rows = entry_views(entries@);
    let ghost good = |entry: (Seq<char>, JsonView)| metrics_stream(entry);
    let ghost bad = |entry: (Seq<char>, JsonView)| metrics_error(entry);
    let mut i: usize = 0;
    assert(metrics_views(report.values@) =~= kept(rows.take(0), good));
    assert(error_views(report.errors@) =~= kept(rows.take(0), bad));
    while i < entries.len()
        invariant
            i <= entries@.len(),
            rows == entry_views(entries@),
            good == (|entry: (Seq<char>, JsonView)| metrics_stream(entry)),
            bad == (|entry: (Seq<char>, JsonView)| metrics_error(entry)),
            metrics_views(report.values@) == kept(rows.take(i as int), good),
            error_views(report.errors@) == kept(rows.take(i as int), bad),
        decreases entries.len() - i,
    {
        proof {
            lemma_kept_step(rows, good, i as int);
            lemma_kept_step(rows, bad, i as int);
            assert(rows[i as int] == (entries@[i as int].0@, entries@[i as int].1@));
        }
        let ghost streams = metrics_views(report.values@);
        let ghost errors = error_views(report.errors@);
        match metrics_stream_from_entry(entries[i].0.as_str(), &entries[i].1) {
            Ok(stream) => {
                report.values.push(stream);
                assert(metrics_views(report.values@) =~= streams.push(stream@));
            },
            Err(e) => {
                report.record_error(e);
                assert(error_views(report.errors@) =~= errors.push(e@));
            },
        }
        i = i + 1;
    }
    assert(rows.take(i as int) =~= rows);
    report
}

/// The metrics streams of a configuration. An entry that describes none is
/// passed over.
pub fn all_metrics_streams(config: &UnifiedConfig) -> (r: Vec<MetricsStreamConfig>)
    ensures
        metrics_views(r@) == kept(
            metrics_entries(config.raw@),
            |entry: (Seq<char>, JsonView)| metrics_stream(entry),
        ),
{
    all_metrics_streams_with_diagnostics(config).into_values()
}

} // verus!
