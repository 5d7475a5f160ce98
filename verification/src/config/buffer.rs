//! How much of the buffers is cached and shipped at a time.
use vstd::prelude::*;

use crate::buffer::{bytes_of_mb, cache_bytes_for, cache_mb_for, mb_bytes};
use crate::config::fields::{number_field, u64_field};
use crate::config::unified::UnifiedConfig;
use crate::json::JsonView;
use crate::text::opt_str_view;

verus! {

/// A number in the section of the buffers.
pub open spec fn buffer_number(config: JsonView, field: Seq<char>) -> Option<u64> {
    match config.get("buffer"@) {
        Some(section) => number_field(section, field),
        None => None,
    }
}

impl UnifiedConfig {
    /// How much of each buffer is cached, in MiB, where the configuration says so.
    pub fn buffer_cache_mb(&self) -> (r: Option<u64>)
        ensures
            r == buffer_number(self.raw@, "cache_mb"@),
    {
        match self.section("buffer") {
            Some(section) => u64_field(section, "cache_mb"),
            None => None,
        }
    }

    /// How much is shipped at a time, in MiB, where the configuration says so.
    pub fn ship_batch_max_mb(&self) -> (r: Option<u64>)
        ensures
            r == buffer_number(self.raw@, "ship_batch_max_mb"@),
    {
        match self.section("buffer") {
            Some(section) => u64_field(section, "ship_batch_max_mb"),
            None => None,
        }
    }
}

/// How much of the buffers is cached and shipped at a time.
#[derive(Debug, Clone, Copy, PartialEq, Eq, Structural)]
pub struct BufferTuning {
    /// How many bytes of each buffer are cached.
    pub cache_size_bytes: usize,
    /// How many bytes are shipped at a time.
    pub ship_batch_max_bytes: usize,
}

/// A number in the section of the buffers of an optional configuration.
pub open spec fn tuning_number(unified: Option<&UnifiedConfig>, field: Seq<char>) -> Option<u64> {
    match unified {
        Some(c) => buffer_number(c.raw@, field),
        None => None,
    }
}

impl BufferTuning {
    /// What an optional configuration comes to. Where it says nothing, the cache
    /// is as the environment asks for and the shipped bytes are the fallback.
    pub fn resolve(
        unified: Option<&UnifiedConfig>,
        cache_env: Option<&str>,
        ship_fallback_bytes: usize,
    ) -> (r: Self)
        ensures
            r.cache_size_bytes == mb_bytes(
                cache_mb_for(tuning_number(unified, "cache_mb"@), opt_str_view(cache_env)),
            ),
            r.ship_batch_max_bytes == match tuning_number(unified, "ship_batch_max_mb"@) {
                Some(mb) => mb_bytes(mb),
                None => ship_fallback_bytes,
            },
    {
        let (cache_mb, ship_mb) = match unified {
            Some(c) => (c.buffer_cache_mb(), c.ship_batch_max_mb()),
            None => (None, None),
        };
        BufferTuning {
            cache_size_bytes: cache_bytes_for(cache_mb, cache_env),
            ship_batch_max_bytes: match ship_mb {
                Some(mb) => bytes_of_mb(mb),
                None => ship_fallback_bytes,
            },
        }
    }
}

} // verus!
