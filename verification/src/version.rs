//! The version that a build reports.
use vstd::prelude::*;
use vstd::string::*;

use crate::text::{occurs, opt_str_view, stands_at, trim, trimmed};

verus! {

/// The version that a build reports: the one that the pipeline gives, else the
/// package's version marked as a build of development, with the commit and with
/// whether the tree has changes.
pub open spec fn version_of(
    release: Option<Seq<char>>,
    package: Option<Seq<char>>,
    commit: Option<Seq<char>>,
    status: Option<Seq<char>>,
) -> Seq<char> {
    if release is Some && trimmed(release->0).len() > 0 {
        trimmed(release->0)
    } else {
        let base = match package {
            Some(p) => p,
            None => "0.0.0"@,
        };
        let sha = match commit {
            Some(c) => c,
            None => "unknown"@,
        };
        let dirty = if status is Some && trimmed(status->0).len() > 0 {
            ".dirty"@
        } else {
            ""@
        };
        base + "-dev+"@ + sha + dirty
    }
}

/// The version that a build reports. `status` is what the version control says of
/// changes in the tree.
pub fn resolve_version(
    release: Option<&str>,
    package: Option<&str>,
    commit: Option<&str>,
    status: Option<&str>,
) -> (r: String)
    ensures
        r@ == version_of(
            opt_str_view(release),
            opt_str_view(package),
            opt_str_view(commit),
            opt_str_view(status),
        ),
{
    if let Some(release) = release {
        let release = trim(release);
        if !release.is_empty() {
            return release.to_owned();
        }
    }
    let mut out = match package {
        Some(p) => p.to_owned(),
        None => "0.0.0".to_owned(),
    };
    out.append("-dev+");
    out.append(
        match commit {
            Some(c) => c,
            None => "unknown",
        },
    );
    let dirty = match status {
        Some(status) => !trim(status).is_empty(),
        None => false,
    };
    out.append(
        if dirty {
            ".dirty"
        } else {
            ""
        },
    );
    out
}

/// A build that is no release says so: its version carries the mark of
/// development.
pub proof fn development_builds_are_marked(
    package: Option<Seq<char>>,
    commit: Option<Seq<char>>,
    status: Option<Seq<char>>,
)
    ensures
        occurs(version_of(None, package, commit, status), "-dev+"@),
{
    let v = version_of(None, package, commit, status);
    let base = match package {
        Some(p) => p,
        None => "0.0.0"@,
    };
    let at = base.len() as int;
    assert(v.subrange(at, at + "-dev+"@.len()) =~= "-dev+"@);
    assert(stands_at(v, "-dev+"@, at));
}

} // verus!
