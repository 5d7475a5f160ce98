//! The unified configuration that the control plane hands out.
use vstd::prelude::*;
use vstd::string::*;

use crate::config::fields::filled_field;
use crate::digest::{sha256_hex, sha256_hex_of};
use crate::json::{json_bytes, Json, JsonView};
use crate::text::{opt_str_view, str_eq};

verus! {

/// A configuration, with what it is told from others by.
pub struct UnifiedConfig {
    pub raw: Json,
    pub checksum: String,
    pub etag: String,
}

/// The checksum of a document: the digest of its compact text.
pub open spec fn checksum_of(value: JsonView) -> Seq<char> {
    sha256_hex(json_bytes(value))
}

/// The checksum of a document, by which a change is seen.
pub fn compute_checksum(value: &Json) -> (r: String)
    ensures
        r@ == checksum_of(value@),
{
    let bytes = value.to_vec();
    sha256_hex_of(bytes.as_slice())
}

impl UnifiedConfig {
    /// The configuration in a response.
    pub fn new(raw: Json, etag: String) -> (r: Self)
        ensures
            r.raw == raw,
            r.etag == etag,
            r.checksum@ == checksum_of(raw@),
    {
        let checksum = compute_checksum(&raw);
        UnifiedConfig { raw, checksum, etag }
    }

    /// Whether another configuration has another checksum.
    #[must_use]
    pub fn has_changed(&self, other: &Self) -> (r: bool)
        ensures
            r == (self.checksum@ != other.checksum@),
    {
        !str_eq(self.checksum.as_str(), other.checksum.as_str())
    }

    /// A section of the configuration.
    pub fn section<'a>(&'a self, name: &str) -> (r: Option<&'a Json>)
        ensures
            match r {
                Some(v) => self.raw@.get(name@) == Some(v@),
                None => self.raw@.get(name@) is None,
            },
    {
        self.raw.get(name)
    }

    /// The agent's identity as the control plane pins it, unless it is empty.
    pub fn resource_identifier<'a>(&'a self) -> (r: Option<&'a str>)
        ensures
            opt_str_view(r) == filled_field(self.raw@, "resource_identifier"@),
    {
        match self.raw.get("resource_identifier") {
            Some(v) => match v.as_str() {
                Some(s) => if s.is_empty() {
                    None
                } else {
                    Some(s)
                },
                None => None,
            },
            None => None,
        }
    }
}

/// Whether a fetched configuration takes the place of the current one: if there
/// is none yet, or if the checksums differ.
pub fn replaces(current: Option<&UnifiedConfig>, fetched: &UnifiedConfig) -> (r: bool)
    ensures
        r == match current {
            Some(c) => c.checksum@ != fetched.checksum@,
            None => true,
        },
{
    match current {
        Some(c) => c.has_changed(fetched),
        None => true,
    }
}

/// What a request for the configuration came to.
pub enum FetchOutcome {
    /// The control plane sent a document.
    Fetched { etag: String, raw: Json },
    /// It has nothing newer than what the etag stands for.
    NotModified,
    /// The request failed.
    Failed,
}

/// Takes in what a request for the configuration came to, and says whether the
/// configuration changed. The next request carries the new etag even where the
/// document is the same; a request that brought no document changes nothing.
pub fn poll_config(
    current: &mut Option<UnifiedConfig>,
    etag: &mut Option<String>,
    outcome: FetchOutcome,
) -> (changed: bool)
    ensures
        match outcome {
            FetchOutcome::Fetched { etag: fetched, raw } => {
                &&& *final(etag) is Some && (*final(etag))->0@ == fetched@
                &&& *final(current) is Some
                &&& changed == match *old(current) {
                    Some(c) => c.checksum@ != checksum_of(raw@),
                    None => true,
                }
                &&& changed ==> {
                    let c = (*final(current))->0;
                    c.raw == raw && c.etag@ == fetched@ && c.checksum@ == checksum_of(raw@)
                }
                &&& !changed ==> *final(current) == *old(current)
            },
            _ => !changed && *final(current) == *old(current) && *final(etag) == *old(etag),
        },
{
    match outcome {
        FetchOutcome::Fetched { etag: fetched, raw } => {
            let config = UnifiedConfig::new(raw, fetched.clone());
            let changed = replaces(current.as_ref(), &config);
            if changed {
                *current = Some(config);
            }
            *etag = Some(fetched);
            changed
        },
        FetchOutcome::NotModified => false,
        FetchOutcome::Failed => false,
    }
}

/// The same document never counts as a change, whatever its etag.
pub proof fn same_document_is_no_change(a: UnifiedConfig, b: UnifiedConfig)
    requires
        a.checksum@ == checksum_of(a.raw@),
        b.checksum@ == checksum_of(b.raw@),
        a.raw@ == b.raw@,
    ensures
        a.checksum@ == b.checksum@,
{
}

} // verus!
