//! The configuration of the agent.
pub mod app;
pub mod buffer;
pub mod cadence;
pub mod ebpf;
pub mod fields;
pub mod hash;
pub mod logs;
pub mod metrics;
pub mod services;
pub mod streaming;
pub mod telemetry;
pub mod trace_proxy;
pub mod unified;

pub use app::{AppConfig, AppConfigError, Cli};
pub use buffer::BufferTuning;
pub use cadence::{effective_poll_interval, effective_stats_interval, stats_reporting_enabled};
pub use ebpf::{ebpf_section, EbpfSectionConfig, EbpfTargetConfig};
pub use logs::{
    all_collect_streams, resolve_collect_streams, CollectDiagnostic, CollectStreamConfig,
    FileSourceFormat, LogStreamConfig, MultilineConfig, ResolvedCollectStreams,
};
pub use metrics::{all_metrics_streams, MetricsStreamConfig};
pub use services::{
    all_service_descriptions, resolved_collect_from_config, selector_matches, CheckpointAdoption,
    ServiceDescription,
};
pub use streaming::{StreamAccessMethod, StreamingSourceConfig};
pub use telemetry::{telemetry_config, TelemetryConfig, TelemetryContext};
pub use trace_proxy::{all_trace_proxies, TraceProxyStreamConfig};
pub use unified::{compute_checksum, UnifiedConfig};
