//! How often the agent asks and reports.
use vstd::prelude::*;

use crate::config::fields::number_field;
use crate::config::unified::UnifiedConfig;
use crate::json::JsonView;

verus! {

/// A number of seconds in the section of the agent itself, unless it is zero.
pub open spec fn config_secs(config: JsonView, field: Seq<char>) -> Option<u64> {
    match config.get("config"@) {
        Some(section) => match number_field(section, field) {
            Some(n) => if n > 0 {
                Some(n)
            } else {
                None
            },
            None => None,
        },
        None => None,
    }
}

/// Whether stats are sent, where the configuration says so.
pub open spec fn config_send_stats(config: JsonView) -> Option<bool> {
    match config.get("config"@) {
        Some(section) => match section.get("send_stats"@) {
            Some(JsonView::Bool(b)) => Some(b),
            _ => None,
        },
        None => None,
    }
}

impl UnifiedConfig {
    /// How often the configuration is asked for, in seconds.
    pub fn config_poll_secs(&self) -> (r: Option<u64>)
        ensures
            r == config_secs(self.raw@, "poll_secs"@),
    {
        self.positive_config_secs("poll_secs")
    }

    /// How often stats are sent, in seconds.
    pub fn stats_interval_secs(&self) -> (r: Option<u64>)
        ensures
            r == config_secs(self.raw@, "stats_interval_secs"@),
    {
        self.positive_config_secs("stats_interval_secs")
    }

    /// Whether stats are sent.
    pub fn send_stats(&self) -> (r: Option<bool>)
        ensures
            r == config_send_stats(self.raw@),
    {
        match self.section("config") {
            Some(section) => match section.get("send_stats") {
                Some(v) => v.as_bool(),
                None => None,
            },
            None => None,
        }
    }

    fn positive_config_secs(&self, field: &str) -> (r: Option<u64>)
        ensures
            r == config_secs(self.raw@, field@),
    {
        match self.section("config") {
            Some(section) => match section.get(field) {
                Some(v) => match v.as_u64() {
                    Some(n) => if n > 0 {
                        Some(n)
                    } else {
                        None
                    },
                    None => None,
                },
                None => None,
            },
            None => None,
        }
    }
}

/// A number of seconds of an optional configuration, or the fallback.
pub open spec fn secs_in(config: Option<&UnifiedConfig>, field: Seq<char>, fallback: u64) -> u64 {
    match config {
        Some(c) => match config_secs(c.raw@, field) {
            Some(n) => n,
            None => fallback,
        },
        None => fallback,
    }
}

/// How often the configuration is asked for, in seconds: as it says, or the
/// fallback.
pub fn effective_poll_interval(config: Option<&UnifiedConfig>, fallback_secs: u64) -> (r: u64)
    ensures
        r == secs_in(config, "poll_secs"@, fallback_secs),
{
    match config {
        Some(c) => match c.config_poll_secs() {
            Some(n) => n,
            None => fallback_secs,
        },
        None => fallback_secs,
    }
}

/// How often stats are sent, in seconds: as the configuration says, or the
/// fallback.
pub fn effective_stats_interval(config: Option<&UnifiedConfig>, fallback_secs: u64) -> (r: u64)
    ensures
        r == secs_in(config, "stats_interval_secs"@, fallback_secs),
{
    match config {
        Some(c) => match c.stats_interval_secs() {
            Some(n) => n,
            None => fallback_secs,
        },
        None => fallback_secs,
    }
}

/// Whether stats are sent: unless the configuration says no.
pub fn stats_reporting_enabled(config: Option<&UnifiedConfig>) -> (r: bool)
    ensures
        r == match config {
            Some(c) => config_send_stats(c.raw@) != Some(false),
            None => true,
        },
{
    match config {
        Some(c) => match c.send_stats() {
            Some(b) => b,
            None => true,
        },
        None => true,
    }
}

/// A cadence is never zero, unless the fallback is.
pub proof fn cadence_is_positive(config: Option<&UnifiedConfig>, field: Seq<char>, fallback: u64)
    requires
        fallback > 0,
    ensures
        secs_in(config, field, fallback) > 0,
{
}

} // verus!
