//! What the agent reports of itself.
use vstd::prelude::*;
use vstd::string::*;

use crate::config::fields::{
    filled_field, optional_string_field, required_config_string, text_field, ArchiveId,
    FieldContext, RepoId, WireEndpoint,
};
use crate::config::unified::{checksum_of, compute_checksum, UnifiedConfig};
use crate::json::{Json, JsonView};

verus! {

/// Whom the agent works for, as it is written into its own log lines.
#[derive(Debug, PartialEq, Eq)]
pub struct TelemetryContext {
    pub tenant_id: String,
    pub tenant_name: String,
    pub customer_archive_id: String,
}

impl Default for TelemetryContext {
    fn default() -> (r: Self)
        ensures
            r@ == (ContextView { tenant_id: ""@, tenant_name: ""@, customer_archive_id: ""@ }),
    {
        TelemetryContext {
            tenant_id: "".to_owned(),
            tenant_name: "".to_owned(),
            customer_archive_id: "".to_owned(),
        }
    }
}

pub struct ContextView {
    pub tenant_id: Seq<char>,
    pub tenant_name: Seq<char>,
    pub customer_archive_id: Seq<char>,
}

impl View for TelemetryContext {
    type V = ContextView;

    open spec fn view(&self) -> ContextView {
        ContextView {
            tenant_id: self.tenant_id@,
            tenant_name: self.tenant_name@,
            customer_archive_id: self.customer_archive_id@,
        }
    }
}

/// Where the agent's own log goes, and what is written into it.
#[derive(Debug, PartialEq, Eq)]
pub struct TelemetryConfig {
    pub enabled: bool,
    pub subbox_endpoint: String,
    pub archive_id: String,
    pub repo_id: String,
    pub min_level: String,
    pub context: TelemetryContext,
    /// The checksum of the section: a change restarts the pipeline.
    pub config_hash: String,
}

pub struct TelemetryView {
    pub enabled: bool,
    pub subbox_endpoint: Seq<char>,
    pub archive_id: Seq<char>,
    pub repo_id: Seq<char>,
    pub min_level: Seq<char>,
    pub context: ContextView,
    pub config_hash: Seq<char>,
}

impl View for TelemetryConfig {
    type V = TelemetryView;

    open spec fn view(&self) -> TelemetryView {
        TelemetryView {
            enabled: self.enabled,
            subbox_endpoint: self.subbox_endpoint@,
            archive_id: self.archive_id@,
            repo_id: self.repo_id@,
            min_level: self.min_level@,
            context: self.context@,
            config_hash: self.config_hash@,
        }
    }
}

/// A text of the context: empty where it is missing or no text.
pub open spec fn context_text(section: JsonView, key: Seq<char>) -> Seq<char> {
    match section.get("context"@) {
        Some(context) => match text_field(context, key) {
            Some(s) => s,
            None => ""@,
        },
        None => ""@,
    }
}

/// The telemetry that a section describes: switched on, and with the three texts
/// that route it.
pub open spec fn telemetry_of(section: JsonView) -> Option<TelemetryView> {
    if section.get("enabled"@) == Some(JsonView::Bool(true)) && filled_field(
        section,
        "subbox_endpoint"@,
    ) is Some && filled_field(section, "archive_id"@) is Some && filled_field(
        section,
        "repo_id"@,
    ) is Some {
        Some(
            TelemetryView {
                enabled: true,
                subbox_endpoint: filled_field(section, "subbox_endpoint"@)->0,
                archive_id: filled_field(section, "archive_id"@)->0,
                repo_id: filled_field(section, "repo_id"@)->0,
                min_level: match filled_field(section, "min_level"@) {
                    Some(s) => s,
                    None => "info"@,
                },
                context: ContextView {
                    tenant_id: context_text(section, "tenant_id"@),
                    tenant_name: context_text(section, "tenant_name"@),
                    customer_archive_id: context_text(section, "customer_archive_id"@),
                },
                config_hash: checksum_of(section),
            },
        )
    } else {
        None
    }
}

fn context_value(section: &Json, key: &str) -> (r: String)
    ensures
        r@ == context_text(section@, key@),
{
    match section.get("context") {
        Some(context) => match context.get(key) {
            Some(value) => match value.as_str() {
                Some(s) => s.to_owned(),
                None => "".to_owned(),
            },
            None => "".to_owned(),
        },
        None => "".to_owned(),
    }
}

/// The telemetry of a configuration, if it is switched on and can be routed.
pub fn telemetry_config(config: &UnifiedConfig) -> (r: Option<TelemetryConfig>)
    ensures
        match config.raw@.get("telemetry"@) {
            Some(section) => match r {
                Some(t) => telemetry_of(section) == Some(t@),
                None => telemetry_of(section) is None,
            },
            None => r is None,
        },
{
    let section = match config.section("telemetry") {
        Some(section) => section,
        None => {
            return None;
        },
    };
    let ctx = FieldContext::section("telemetry");
    let enabled = match section.get("enabled") {
        Some(v) => match v.as_bool() {
            Some(b) => b,
            None => {
                return None;
            },
        },
        None => {
            return None;
        },
    };
    if !enabled {
        return None;
    }
    let subbox_endpoint = match required_config_string::<WireEndpoint>(
        section,
        "subbox_endpoint",
        ctx,
    ) {
        Some(v) => v.0,
        None => {
            return None;
        },
    };
    let archive_id = match required_config_string::<ArchiveId>(section, "archive_id", ctx) {
        Some(v) => v.0,
        None => {
            return None;
        },
    };
    let repo_id = match required_config_string::<RepoId>(section, "repo_id", ctx) {
        Some(v) => v.0,
        None => {
            return None;
        },
    };
    let min_level = match optional_string_field(section, "min_level") {
        Some(s) => s,
        None => "info".to_owned(),
    };
    let context = TelemetryContext {
        tenant_id: context_value(section, "tenant_id"),
        tenant_name: context_value(section, "tenant_name"),
        customer_archive_id: context_value(section, "customer_archive_id"),
    };
    let config_hash = compute_checksum(section);
    Some(
        TelemetryConfig {
            enabled,
            subbox_endpoint,
            archive_id,
            repo_id,
            min_level,
            context,
            config_hash,
        },
    )
}

} // verus!
