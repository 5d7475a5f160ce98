//! Collect directives, and the sources that they resolve to.
use vstd::prelude::*;
use vstd::string::*;
use vstd::utf8::encode_utf8;

use crate::config::fields::{
    bool_field_or, bool_or, filled_field, opt_json_view, optional_string_field, required_config_key,
    required_config_string, required_string_field, u32_field_or, u32_or, ArchiveId, FieldContext,
    LogSourceId, RepoId, WireEndpoint,
};
use crate::config::hash::{
    changed_settings_change_the_hash, lemma_decimal_is_digits, settings_bytes, settings_hash,
    settings_text,
};
use crate::config::services::{AdoptionView, CheckpointAdoption};
use crate::config::streaming::{
    StreamAccessMethod, StreamAccessView, StreamingSourceConfig, StreamingView,
};
use crate::config::unified::UnifiedConfig;
use crate::digest::{is_digest_text, sha256, sha256_hex, text_sha256_hex};
use crate::discovery::cache::{
    infer_loggable_type, loggable_type, resolution, resolution_is_deterministic, CacheView, CollectMatch, DiscoveryCache,
    MatchStatus, MatchVia, MatchView, ResolvedAccess,
};
use crate::discovery::container::{AccessMethod, LocalFiles};
use crate::json::{entry_views, Json, JsonView};
use crate::seqs::{kept, lemma_kept_step};
use crate::text::{
    concat, contains_string, decimal, decimal_of, join3, opt_view, str_eq, strings, strs,
};

verus! {

/// How the lines of one source are put together into events.
#[derive(Debug, PartialEq, Eq)]
pub struct MultilineConfig {
    /// What the first line of an event matches.
    pub start_pattern: String,
    /// The most lines of an event.
    pub max_lines: u32,
    /// How long an event may wait for its next line.
    pub timeout_secs: u32,
}

/// What multiline settings are.
#[verifier::ext_equal]
pub struct MultilineView {
    pub start_pattern: Seq<char>,
    pub max_lines: u32,
    pub timeout_secs: u32,
}

/// What optional multiline settings are.
pub open spec fn multiline_view(m: Option<MultilineConfig>) -> Option<MultilineView> {
    match m {
        Some(m) => Some(
            MultilineView {
                start_pattern: m.start_pattern@,
                max_lines: m.max_lines,
                timeout_secs: m.timeout_secs,
            },
        ),
        None => None,
    }
}

fn copy_multiline(m: &Option<MultilineConfig>) -> (r: Option<MultilineConfig>)
    ensures
        r == *m,
{
    match m {
        Some(m) => Some(
            MultilineConfig {
                start_pattern: m.start_pattern.clone(),
                max_lines: m.max_lines,
                timeout_secs: m.timeout_secs,
            },
        ),
        None => None,
    }
}

/// What stands around the lines of a file.
#[derive(Debug, Clone, Copy, PartialEq, Eq, Structural)]
pub enum FileSourceFormat {
    Plain,
    DockerJson,
    KubernetesCri,
}

impl FileSourceFormat {
    /// The format's part in a configuration's hash.
    pub open spec fn part(self) -> Seq<char> {
        match self {
            FileSourceFormat::Plain => "file"@,
            FileSourceFormat::DockerJson => "docker-json"@,
            FileSourceFormat::KubernetesCri => "k8s-cri"@,
        }
    }

    pub fn hash_part(self) -> (r: &'static str)
        ensures
            r@ == self.part(),
    {
        match self {
            FileSourceFormat::Plain => "file",
            FileSourceFormat::DockerJson => "docker-json",
            FileSourceFormat::KubernetesCri => "k8s-cri",
        }
    }
}

/// A file that is tailed and shipped.
#[derive(Debug)]
pub struct LogStreamConfig {
    /// The id of the source.
    pub log_source_id: String,
    pub path: String,
    pub endpoint: String,
    pub archive_id: String,
    pub repo_id: String,
    /// Whether the agent's identity is stamped into shipped metadata.
    pub stamp_resource_identifier: bool,
    /// What stands around the lines of the file.
    pub source_format: FileSourceFormat,
    pub multiline: Option<MultilineConfig>,
    /// A digest of all that a pipeline has to be restarted for.
    pub config_hash: String,
}

/// What a tailed file is.
#[verifier::ext_equal]
pub struct LogStreamView {
    pub log_source_id: Seq<char>,
    pub path: Seq<char>,
    pub endpoint: Seq<char>,
    pub archive_id: Seq<char>,
    pub repo_id: Seq<char>,
    pub stamp_resource_identifier: bool,
    pub source_format: FileSourceFormat,
    pub multiline: Option<MultilineView>,
    pub config_hash: Seq<char>,
}

impl View for LogStreamConfig {
    type V = LogStreamView;

    open spec fn view(&self) -> LogStreamView {
        LogStreamView {
            log_source_id: self.log_source_id@,
            path: self.path@,
            endpoint: self.endpoint@,
            archive_id: self.archive_id@,
            repo_id: self.repo_id@,
            stamp_resource_identifier: self.stamp_resource_identifier,
            source_format: self.source_format,
            multiline: multiline_view(self.multiline),
            config_hash: self.config_hash@,
        }
    }
}

/// A directive of what to collect.
#[derive(Debug)]
pub struct CollectStreamConfig {
    pub log_source_id: String,
    pub locator: String,
    pub matching_strategy: String,
    pub container_identifier: String,
    pub subbox_endpoint: String,
    pub archive_id: String,
    pub repo_id: String,
    /// Whether the agent's identity is stamped into shipped metadata.
    pub stamp_resource_identifier: bool,
    pub multiline: Option<MultilineConfig>,
    pub config_hash: String,
}

/// What a directive is.
#[verifier::ext_equal]
pub struct CollectView {
    pub log_source_id: Seq<char>,
    pub locator: Seq<char>,
    pub matching_strategy: Seq<char>,
    pub container_identifier: Seq<char>,
    pub subbox_endpoint: Seq<char>,
    pub archive_id: Seq<char>,
    pub repo_id: Seq<char>,
    pub stamp_resource_identifier: bool,
    pub multiline: Option<MultilineView>,
    pub config_hash: Seq<char>,
}

impl View for CollectStreamConfig {
    type V = CollectView;

    open spec fn view(&self) -> CollectView {
        CollectView {
            log_source_id: self.log_source_id@,
            locator: self.locator@,
            matching_strategy: self.matching_strategy@,
            container_identifier: self.container_identifier@,
            subbox_endpoint: self.subbox_endpoint@,
            archive_id: self.archive_id@,
            repo_id: self.repo_id@,
            stamp_resource_identifier: self.stamp_resource_identifier,
            multiline: multiline_view(self.multiline),
            config_hash: self.config_hash@,
        }
    }
}

/// How one directive resolved.
#[derive(Debug)]
pub struct CollectDiagnostic {
    pub log_source_id: String,
    pub status: MatchStatus,
    pub detail: String,
}

/// What a diagnostic says.
#[verifier::ext_equal]
pub struct DiagnosticView {
    pub log_source_id: Seq<char>,
    pub status: MatchStatus,
    pub detail: Seq<char>,
}

impl View for CollectDiagnostic {
    type V = DiagnosticView;

    open spec fn view(&self) -> DiagnosticView {
        DiagnosticView {
            log_source_id: self.log_source_id@,
            status: self.status,
            detail: self.detail@,
        }
    }
}

/// The sources that directives resolved to, with a diagnostic for each.
pub struct ResolvedCollectStreams {
    pub file_streams: Vec<LogStreamConfig>,
    pub streaming_sources: Vec<StreamingSourceConfig>,
    pub diagnostics: Vec<CollectDiagnostic>,
    /// Which state of a directive a synthesized source takes over.
    pub checkpoint_adoptions: Vec<CheckpointAdoption>,
}

/// What directives resolved to.
#[verifier::ext_equal]
pub struct ResolvedView {
    pub file_streams: Seq<LogStreamView>,
    pub streaming_sources: Seq<StreamingView>,
    pub diagnostics: Seq<DiagnosticView>,
    pub checkpoint_adoptions: Seq<AdoptionView>,
}

impl View for ResolvedCollectStreams {
    type V = ResolvedView;

    open spec fn view(&self) -> ResolvedView {
        ResolvedView {
            file_streams: self.file_streams@.map_values(|s: LogStreamConfig| s@),
            streaming_sources: self.streaming_sources@.map_values(|s: StreamingSourceConfig| s@),
            diagnostics: self.diagnostics@.map_values(|d: CollectDiagnostic| d@),
            checkpoint_adoptions: self.checkpoint_adoptions@.map_values(
                |a: CheckpointAdoption| a@,
            ),
        }
    }
}

/// Nothing resolved yet.
pub open spec fn nothing_resolved() -> ResolvedView {
    ResolvedView {
        file_streams: seq![],
        streaming_sources: seq![],
        diagnostics: seq![],
        checkpoint_adoptions: seq![],
    }
}

impl Default for ResolvedCollectStreams {
    fn default() -> (r: Self)
        ensures
            r@ == nothing_resolved(),
    {
        let r = ResolvedCollectStreams {
            file_streams: Vec::new(),
            streaming_sources: Vec::new(),
            diagnostics: Vec::new(),
            checkpoint_adoptions: Vec::new(),
        };
        assert(r@ =~= nothing_resolved());
        r
    }
}

impl ResolvedCollectStreams {
    fn push_file(&mut self, s: LogStreamConfig)
        ensures
            final(self)@ == (ResolvedView {
                file_streams: old(self)@.file_streams.push(s@),
                ..old(self)@
            }),
    {
        let ghost before = self@;
        self.file_streams.push(s);
        assert(self@ =~= ResolvedView { file_streams: before.file_streams.push(s@), ..before });
    }

    fn push_streaming(&mut self, s: StreamingSourceConfig)
        ensures
            final(self)@ == (ResolvedView {
                streaming_sources: old(self)@.streaming_sources.push(s@),
                ..old(self)@
            }),
    {
        let ghost before = self@;
        self.streaming_sources.push(s);
        assert(self@ =~= ResolvedView {
            streaming_sources: before.streaming_sources.push(s@),
            ..before
        });
    }

    /// Adds a diagnostic.
    pub fn push_diagnostic(&mut self, d: CollectDiagnostic)
        ensures
            final(self)@ == diagnosed(old(self)@, d@),
    {
        let ghost before = self@;
        self.diagnostics.push(d);
        assert(self@ =~= diagnosed(before, d@));
    }

    /// Adds an adoption.
    pub fn push_adoption(&mut self, a: CheckpointAdoption)
        ensures
            final(self)@ == adopted(old(self)@, a@),
    {
        let ghost before = self@;
        self.checkpoint_adoptions.push(a);
        assert(self@ =~= adopted(before, a@));
    }
}

/// `r` with one more diagnostic.
pub open spec fn diagnosed(r: ResolvedView, d: DiagnosticView) -> ResolvedView {
    ResolvedView { diagnostics: r.diagnostics.push(d), ..r }
}

/// `r` with one more adoption.
pub open spec fn adopted(r: ResolvedView, a: AdoptionView) -> ResolvedView {
    ResolvedView { checkpoint_adoptions: r.checkpoint_adoptions.push(a), ..r }
}

// ---------------------------------------------------------------------------
// Hashes
// ---------------------------------------------------------------------------

/// The multiline settings' part in a configuration's hash.
pub open spec fn multiline_part(m: Option<MultilineView>) -> Seq<char> {
    match m {
        Some(m) => m.start_pattern + "|"@ + decimal(m.max_lines as nat) + "|"@ + decimal(
            m.timeout_secs as nat,
        ),
        None => "-"@,
    }
}

/// The stamp's part in a configuration's hash.
pub open spec fn stamp_part(stamp: bool) -> Seq<char> {
    if stamp {
        "stamp"@
    } else {
        "nostamp"@
    }
}

/// The format's part in a configuration's hash is its own.
proof fn lemma_format_parts(a: FileSourceFormat, b: FileSourceFormat)
    ensures
        a.part() == b.part() ==> a == b,
{
    reveal_strlit("file");
    reveal_strlit("docker-json");
    reveal_strlit("k8s-cri");
    assert("file"@.len() == 4 && "docker-json"@.len() == 11 && "k8s-cri"@.len() == 7);
}

proof fn lemma_stamp_parts(a: bool, b: bool)
    ensures
        stamp_part(a) == stamp_part(b) ==> a == b,
{
    reveal_strlit("stamp");
    reveal_strlit("nostamp");
    assert("stamp"@.len() == 5 && "nostamp"@.len() == 7);
}

/// A number behind a bar can be told from what stands in front of the bar.
proof fn lemma_last_number(s: Seq<char>, m: nat, t: Seq<char>, n: nat)
    requires
        s + "|"@ + decimal(m) == t + "|"@ + decimal(n),
    ensures
        s == t,
        m == n,
{
    reveal_strlit("|");
    let a = s + "|"@ + decimal(m);
    let b = t + "|"@ + decimal(n);
    lemma_decimal_is_digits(m);
    lemma_decimal_is_digits(n);
    assert("|"@.len() == 1 && "|"@[0] == '|');
    assert(a.len() == s.len() + 1 + decimal(m).len());
    assert(b.len() == t.len() + 1 + decimal(n).len());
    assert(a == b);
    if s.len() < t.len() {
        assert(b[t.len() as int] == '|');
        let k = t.len() - s.len() - 1;
        assert(a[t.len() as int] == decimal(m)[k]);
        assert(crate::text::is_digit(decimal(m)[k], 10));
    } else if t.len() < s.len() {
        assert(a[s.len() as int] == '|');
        let k = s.len() - t.len() - 1;
        assert(b[s.len() as int] == decimal(n)[k]);
        assert(crate::text::is_digit(decimal(n)[k], 10));
    }
    assert(a.take(s.len() as int) =~= s);
    assert(b.take(t.len() as int) =~= t);
    assert(a.skip(s.len() as int + 1) =~= decimal(m));
    assert(b.skip(t.len() as int + 1) =~= decimal(n));
}

/// The multiline settings' part in a configuration's hash is their own, whatever the
/// pattern holds.
proof fn lemma_multiline_parts(a: Option<MultilineView>, b: Option<MultilineView>)
    ensures
        multiline_part(a) == multiline_part(b) ==> a == b,
{
    reveal_strlit("|");
    reveal_strlit("-");
    assert("|"@.len() == 1 && "|"@[0] == '|');
    if multiline_part(a) == multiline_part(b) {
        match (a, b) {
            (Some(x), Some(y)) => {
                lemma_last_number(
                    x.start_pattern + "|"@ + decimal(x.max_lines as nat),
                    x.timeout_secs as nat,
                    y.start_pattern + "|"@ + decimal(y.max_lines as nat),
                    y.timeout_secs as nat,
                );
                lemma_last_number(
                    x.start_pattern,
                    x.max_lines as nat,
                    y.start_pattern,
                    y.max_lines as nat,
                );
                assert(x =~= y);
            },
            (Some(x), None) => {
                assert(multiline_part(a).len() >= 2);
            },
            (None, Some(y)) => {
                assert(multiline_part(b).len() >= 2);
            },
            (None, None) => {},
        }
    }
}

/// All that a pipeline of a tailed file has to be restarted for.
pub open spec fn log_stream_fields(
    path: Seq<char>,
    endpoint: Seq<char>,
    archive_id: Seq<char>,
    repo_id: Seq<char>,
    multiline: Option<MultilineView>,
    source_format: FileSourceFormat,
    stamp: bool,
) -> Seq<Seq<char>> {
    seq![
        path,
        endpoint,
        archive_id,
        repo_id,
        multiline_part(multiline),
        source_format.part(),
        stamp_part(stamp),
    ]
}

/// Which of those fields may hold bars of its own: the multiline settings' part.
pub const STREAM_MULTILINE: usize = 4;

/// The hash of all that a pipeline of a tailed file has to be restarted for.
pub open spec fn log_stream_hash(
    path: Seq<char>,
    endpoint: Seq<char>,
    archive_id: Seq<char>,
    repo_id: Seq<char>,
    multiline: Option<MultilineView>,
    source_format: FileSourceFormat,
    stamp: bool,
) -> Seq<char> {
    settings_hash(
        log_stream_fields(path, endpoint, archive_id, repo_id, multiline, source_format, stamp),
        STREAM_MULTILINE as int,
    )
}

/// All that a directive's pipeline has to be restarted for.
pub open spec fn collect_fields(
    locator: Seq<char>,
    matching_strategy: Seq<char>,
    subbox_endpoint: Seq<char>,
    archive_id: Seq<char>,
    repo_id: Seq<char>,
    multiline: Option<MultilineView>,
    stamp: bool,
) -> Seq<Seq<char>> {
    seq![
        locator,
        matching_strategy,
        subbox_endpoint,
        archive_id,
        repo_id,
        multiline_part(multiline),
        stamp_part(stamp),
    ]
}

/// Which of those fields may hold bars of its own: the multiline settings' part.
pub const DIRECTIVE_MULTILINE: usize = 5;

/// The hash of all that a directive's pipeline has to be restarted for.
pub open spec fn collect_hash(
    locator: Seq<char>,
    matching_strategy: Seq<char>,
    subbox_endpoint: Seq<char>,
    archive_id: Seq<char>,
    repo_id: Seq<char>,
    multiline: Option<MultilineView>,
    stamp: bool,
) -> Seq<char> {
    settings_hash(
        collect_fields(
            locator,
            matching_strategy,
            subbox_endpoint,
            archive_id,
            repo_id,
            multiline,
            stamp,
        ),
        DIRECTIVE_MULTILINE as int,
    )
}

/// What of a tailed file its pipeline has to be restarted for.
pub open spec fn stream_fields(s: LogStreamView) -> Seq<Seq<char>> {
    log_stream_fields(
        s.path,
        s.endpoint,
        s.archive_id,
        s.repo_id,
        s.multiline,
        s.source_format,
        s.stamp_resource_identifier,
    )
}

/// Every change of a tailed file that its pipeline has to be restarted for changes
/// what is digested: the hashes are equal only if two byte sequences have one digest.
pub proof fn changed_streams_have_other_hashes(a: LogStreamView, b: LogStreamView)
    requires
        a.path != b.path || a.endpoint != b.endpoint || a.archive_id != b.archive_id || a.repo_id
            != b.repo_id || a.multiline != b.multiline || a.source_format != b.source_format
            || a.stamp_resource_identifier != b.stamp_resource_identifier,
    ensures
        ({
            let x = settings_bytes(stream_fields(a), STREAM_MULTILINE as int);
            let y = settings_bytes(stream_fields(b), STREAM_MULTILINE as int);
            &&& x != y
            &&& sha256_hex(x) == sha256_hex(y) ==> sha256(x) == sha256(y)
        }),
{
    let x = stream_fields(a);
    let y = stream_fields(b);
    lemma_multiline_parts(a.multiline, b.multiline);
    lemma_format_parts(a.source_format, b.source_format);
    lemma_stamp_parts(a.stamp_resource_identifier, b.stamp_resource_identifier);
    if x == y {
        assert(x[0] == y[0] && x[1] == y[1] && x[2] == y[2] && x[3] == y[3] && x[4] == y[4]
            && x[5] == y[5] && x[6] == y[6]);
    }
    reveal_strlit("stamp");
    reveal_strlit("nostamp");
    assert("stamp"@.last() == 'p' && "nostamp"@.last() == 'p');
    changed_settings_change_the_hash(x, y, STREAM_MULTILINE as int);
}

/// What of a directive its pipeline has to be restarted for.
pub open spec fn directive_fields(c: CollectView) -> Seq<Seq<char>> {
    collect_fields(
        c.locator,
        c.matching_strategy,
        c.subbox_endpoint,
        c.archive_id,
        c.repo_id,
        c.multiline,
        c.stamp_resource_identifier,
    )
}

/// The same of a directive.
pub proof fn changed_directives_have_other_hashes(a: CollectView, b: CollectView)
    requires
        a.locator != b.locator || a.matching_strategy != b.matching_strategy || a.subbox_endpoint
            != b.subbox_endpoint || a.archive_id != b.archive_id || a.repo_id != b.repo_id
            || a.multiline != b.multiline || a.stamp_resource_identifier
            != b.stamp_resource_identifier,
    ensures
        ({
            let x = settings_bytes(directive_fields(a), DIRECTIVE_MULTILINE as int);
            let y = settings_bytes(directive_fields(b), DIRECTIVE_MULTILINE as int);
            &&& x != y
            &&& sha256_hex(x) == sha256_hex(y) ==> sha256(x) == sha256(y)
        }),
{
    let x = directive_fields(a);
    let y = directive_fields(b);
    lemma_multiline_parts(a.multiline, b.multiline);
    lemma_stamp_parts(a.stamp_resource_identifier, b.stamp_resource_identifier);
    if x == y {
        assert(x[0] == y[0] && x[1] == y[1] && x[2] == y[2] && x[3] == y[3] && x[4] == y[4]
            && x[5] == y[5] && x[6] == y[6]);
    }
    reveal_strlit("stamp");
    reveal_strlit("nostamp");
    assert("stamp"@.last() == 'p' && "nostamp"@.last() == 'p');
    changed_settings_change_the_hash(x, y, DIRECTIVE_MULTILINE as int);
}

/// What optional borrowed multiline settings are.
pub open spec fn opt_multiline_view(m: Option<&MultilineConfig>) -> Option<MultilineView> {
    match m {
        Some(m) => multiline_view(Some(*m)),
        None => None,
    }
}

pub fn multiline_hash_part(multiline: Option<&MultilineConfig>) -> (r: String)
    ensures
        r@ == multiline_part(opt_multiline_view(multiline)),
{
    match multiline {
        Some(m) => join3(
            m.start_pattern.as_str(),
            "|",
            decimal_of(m.max_lines as u64).as_str(),
            decimal_of(m.timeout_secs as u64).as_str(),
        ),
        None => "-".to_owned(),
    }
}

fn stamp_hash_part(stamp: bool) -> (r: &'static str)
    ensures
        r@ == stamp_part(stamp),
{
    if stamp {
        "stamp"
    } else {
        "nostamp"
    }
}

impl LogStreamConfig {
    /// The hash of all that a pipeline has to be restarted for.
    pub fn compute_hash(
        path: &str,
        endpoint: &str,
        archive_id: &str,
        repo_id: &str,
        multiline: Option<&MultilineConfig>,
        source_format: FileSourceFormat,
        stamp_resource_identifier: bool,
    ) -> (r: String)
        ensures
            r@ == log_stream_hash(
                path@,
                endpoint@,
                archive_id@,
                repo_id@,
                opt_multiline_view(multiline),
                source_format,
                stamp_resource_identifier,
            ),
            is_digest_text(r@),
    {
        let ghost fields = log_stream_fields(
            path@,
            endpoint@,
            archive_id@,
            repo_id@,
            opt_multiline_view(multiline),
            source_format,
            stamp_resource_identifier,
        );
        let multiline = multiline_hash_part(multiline);
        let stamp = stamp_hash_part(stamp_resource_identifier);
        let parts: Vec<&str> = vec![
            path,
            endpoint,
            archive_id,
            repo_id,
            multiline.as_str(),
            source_format.hash_part(),
            stamp,
        ];
        assert(strs(parts@) =~= fields);
        let input = settings_text(&parts, STREAM_MULTILINE);
        text_sha256_hex(input.as_str())
    }
}

impl CollectStreamConfig {
    /// The hash of all that a pipeline has to be restarted for.
    pub fn compute_hash(
        locator: &str,
        matching_strategy: &str,
        subbox_endpoint: &str,
        archive_id: &str,
        repo_id: &str,
        multiline: Option<&MultilineConfig>,
        stamp_resource_identifier: bool,
    ) -> (r: String)
        ensures
            r@ == collect_hash(
                locator@,
                matching_strategy@,
                subbox_endpoint@,
                archive_id@,
                repo_id@,
                opt_multiline_view(multiline),
                stamp_resource_identifier,
            ),
            is_digest_text(r@),
    {
        let ghost fields = collect_fields(
            locator@,
            matching_strategy@,
            subbox_endpoint@,
            archive_id@,
            repo_id@,
            opt_multiline_view(multiline),
            stamp_resource_identifier,
        );
        let multiline = multiline_hash_part(multiline);
        let stamp = stamp_hash_part(stamp_resource_identifier);
        let parts: Vec<&str> = vec![
            locator,
            matching_strategy,
            subbox_endpoint,
            archive_id,
            repo_id,
            multiline.as_str(),
            stamp,
        ];
        assert(strs(parts@) =~= fields);
        let input = settings_text(&parts, DIRECTIVE_MULTILINE);
        text_sha256_hex(input.as_str())
    }

    /// Where the source is shipped to.
    pub fn ship_endpoint<'a>(&'a self) -> (r: &'a str)
        ensures
            r@ == self@.subbox_endpoint,
    {
        self.subbox_endpoint.as_str()
    }

    /// A copy of the directive, for another source.
    pub fn with_source_id(&self, log_source_id: String) -> (r: Self)
        ensures
            r@ == (CollectView { log_source_id: log_source_id@, ..self@ }),
    {
        let r = CollectStreamConfig {
            log_source_id,
            locator: self.locator.clone(),
            matching_strategy: self.matching_strategy.clone(),
            container_identifier: self.container_identifier.clone(),
            subbox_endpoint: self.subbox_endpoint.clone(),
            archive_id: self.archive_id.clone(),
            repo_id: self.repo_id.clone(),
            stamp_resource_identifier: self.stamp_resource_identifier,
            multiline: copy_multiline(&self.multiline),
            config_hash: self.config_hash.clone(),
        };
        assert(r@ =~= CollectView { log_source_id: log_source_id@, ..self@ });
        r
    }
}

// ---------------------------------------------------------------------------
// Reading directives
// ---------------------------------------------------------------------------

/// The multiline settings that a value describes, if it names a start pattern.
pub open spec fn multiline_in(value: Option<JsonView>) -> Option<MultilineView> {
    match value {
        None => None,
        Some(v) => match filled_field(v, "start_pattern"@) {
            None => None,
            Some(start_pattern) => Some(
                MultilineView {
                    start_pattern,
                    max_lines: u32_or(v, "max_lines"@, 0),
                    timeout_secs: u32_or(v, "timeout_seconds"@, u32_or(v, "timeout_secs"@, 0)),
                },
            ),
        },
    }
}

pub fn parse_multiline_config(value: Option<&Json>, ctx: FieldContext<'_>) -> (r: Option<
    MultilineConfig,
>)
    ensures
        multiline_view(r) == multiline_in(opt_json_view(value)),
{
    let v = match value {
        Some(v) => v,
        None => {
            return None;
        },
    };
    let start_pattern = match required_string_field(v, "start_pattern", ctx) {
        Some(s) => s,
        None => {
            return None;
        },
    };
    let max_lines = u32_field_or(v, "max_lines", 0, ctx);
    let fallback = u32_field_or(v, "timeout_secs", 0, ctx);
    let timeout_secs = u32_field_or(v, "timeout_seconds", fallback, ctx);
    Some(MultilineConfig { start_pattern, max_lines, timeout_secs })
}

/// The text, or nothing.
pub open spec fn text_or_empty(s: Option<Seq<char>>) -> Seq<char> {
    match s {
        Some(t) => t,
        None => seq![],
    }
}

/// How a directive looks for its source: its matching strategy, else its access
/// method.
pub open spec fn strategy_in(entry: JsonView) -> Seq<char> {
    match filled_field(entry, "matching_strategy"@) {
        Some(s) => s,
        None => text_or_empty(filled_field(entry, "access_method"@)),
    }
}

/// The directive of an id and a locator that an entry describes, if it names
/// where to ship to.
pub open spec fn directive_in(
    log_source_id: Seq<char>,
    locator: Seq<char>,
    entry: JsonView,
) -> Option<CollectView> {
    let endpoint = filled_field(entry, "subbox_endpoint"@);
    let archive = filled_field(entry, "archive_id"@);
    let repo = filled_field(entry, "repo_id"@);
    let multiline = multiline_in(entry.get("multiline"@));
    let stamp = bool_or(entry, "stamp_resource_identifier"@, false);
    if endpoint is Some && archive is Some && repo is Some {
        Some(
            CollectView {
                log_source_id,
                locator,
                matching_strategy: strategy_in(entry),
                container_identifier: text_or_empty(filled_field(entry, "container_identifier"@)),
                subbox_endpoint: endpoint->0,
                archive_id: archive->0,
                repo_id: repo->0,
                stamp_resource_identifier: stamp,
                multiline,
                config_hash: collect_hash(
                    locator,
                    strategy_in(entry),
                    endpoint->0,
                    archive->0,
                    repo->0,
                    multiline,
                    stamp,
                ),
            },
        )
    } else {
        None
    }
}

/// The directive of an entry of the `collect` map, which is keyed by source and
/// has to name a locator.
pub open spec fn collect_entry(entry: (Seq<char>, JsonView)) -> Option<CollectView> {
    let locator = filled_field(entry.1, "locator"@);
    if entry.0.len() > 0 && locator is Some {
        directive_in(entry.0, locator->0, entry.1)
    } else {
        None
    }
}

/// The directives of a configuration.
pub open spec fn collect_directives(config: JsonView) -> Seq<CollectView> {
    match config.get("collect"@) {
        Some(JsonView::Object(entries)) => kept(
            entries,
            |entry: (Seq<char>, JsonView)| collect_entry(entry),
        ),
        _ => seq![],
    }
}

/// What directives of a list are.
pub open spec fn collect_views(v: Seq<CollectStreamConfig>) -> Seq<CollectView> {
    v.map_values(|c: CollectStreamConfig| c@)
}

fn text_of(s: Option<String>) -> (r: String)
    ensures
        r@ == text_or_empty(opt_view(s)),
{
    match s {
        Some(t) => t,
        None => {
            let none = String::new();
            assert(none@ =~= seq![]);
            none
        },
    }
}

/// The directive of an id and a locator that an entry describes.
pub fn read_directive(
    log_source_id: String,
    locator: String,
    entry: &Json,
    ctx: FieldContext<'_>,
) -> (r: Option<CollectStreamConfig>)
    ensures
        match r {
            Some(c) => directive_in(log_source_id@, locator@, entry@) == Some(c@),
            None => directive_in(log_source_id@, locator@, entry@) is None,
        },
{
    let subbox_endpoint = match required_config_string::<WireEndpoint>(
        entry,
        "subbox_endpoint",
        ctx,
    ) {
        Some(v) => v.0,
        None => {
            return None;
        },
    };
    let archive_id = match required_config_string::<ArchiveId>(entry, "archive_id", ctx) {
        Some(v) => v.0,
        None => {
            return None;
        },
    };
    let repo_id = match required_config_string::<RepoId>(entry, "repo_id", ctx) {
        Some(v) => v.0,
        None => {
            return None;
        },
    };
    let matching_strategy = match optional_string_field(entry, "matching_strategy") {
        Some(s) => s,
        None => text_of(optional_string_field(entry, "access_method")),
    };
    let container_identifier = text_of(optional_string_field(entry, "container_identifier"));
    let stamp_resource_identifier = bool_field_or(entry, "stamp_resource_identifier", false);
    let multiline = parse_multiline_config(entry.get("multiline"), ctx);
    let config_hash = CollectStreamConfig::compute_hash(
        locator.as_str(),
        matching_strategy.as_str(),
        subbox_endpoint.as_str(),
        archive_id.as_str(),
        repo_id.as_str(),
        multiline.as_ref(),
        stamp_resource_identifier,
    );
    let c = CollectStreamConfig {
        log_source_id,
        locator,
        matching_strategy,
        container_identifier,
        subbox_endpoint,
        archive_id,
        repo_id,
        stamp_resource_identifier,
        multiline,
        config_hash,
    };
    assert(c@ =~= directive_in(log_source_id@, locator@, entry@)->0);
    Some(c)
}

fn read_collect_entry(key: &String, entry: &Json) -> (r: Option<CollectStreamConfig>)
    ensures
        match r {
            Some(c) => collect_entry((key@, entry@)) == Some(c@),
            None => collect_entry((key@, entry@)) is None,
        },
{
    let ctx = FieldContext::entry("collect", key.as_str());
    let log_source_id = match required_config_key::<LogSourceId>(key.as_str(), ctx) {
        Some(id) => id.0,
        None => {
            return None;
        },
    };
    let locator = match required_string_field(entry, "locator", ctx) {
        Some(s) => s,
        None => {
            return None;
        },
    };
    read_directive(log_source_id, locator, entry, ctx)
}

/// The directives of a configuration's `collect` map. An entry that lacks a
/// required field is passed over.
pub fn all_collect_streams(config: &UnifiedConfig) -> (r: Vec<CollectStreamConfig>)
    ensures
        collect_views(r@) == collect_directives(config.raw@),
{
    let mut out: Vec<CollectStreamConfig> = Vec::new();
    assert(collect_views(out@) =~= seq![]);
    let entries = match config.raw.get("collect") {
        Some(v) => match v.as_object() {
            Some(entries) => entries,
            None => {
                return out;
            },
        },
        None => {
            return out;
        },
    };
    let ghost rows = entry_views(entries@);
    let ghost f = |entry: (Seq<char>, JsonView)| collect_entry(entry);
    let mut i: usize = 0;
    assert(collect_views(out@) =~= kept(rows.take(0), f));
    while i < entries.len()
        invariant
            i <= entries@.len(),
            rows == entry_views(entries@),
            config.raw@.get("collect"@) == Some(JsonView::Object(rows)),
            f == (|entry: (Seq<char>, JsonView)| collect_entry(entry)),
            collect_views(out@) == kept(rows.take(i as int), f),
        decreases entries.len() - i,
    {
        proof {
            lemma_kept_step(rows, f, i as int);
            assert(rows[i as int] == (entries@[i as int].0@, entries@[i as int].1@));
        }
        let ghost before = collect_views(out@);
        match read_collect_entry(&entries[i].0, &entries[i].1) {
            Some(c) => {
                out.push(c);
                assert(collect_views(out@) =~= before.push(c@));
            },
            None => {},
        }
        i = i + 1;
    }
    assert(rows.take(i as int) =~= rows);
    out
}

// ---------------------------------------------------------------------------
// Resolving directives
// ---------------------------------------------------------------------------

/// Whether a strategy names an event log channel.
pub open spec fn event_log_method(method: Seq<char>) -> bool {
    method == "windows_event"@ || method == "windows_event_log"@ || method == "event_log"@ || method
        == "eventlog"@
}

pub fn is_windows_event_log_method(method: &str) -> (r: bool)
    ensures
        r == event_log_method(method@),
{
    str_eq(method, "windows_event") || str_eq(method, "windows_event_log") || str_eq(
        method,
        "event_log",
    ) || str_eq(method, "eventlog")
}

/// The diagnostic of a match.
pub open spec fn matched_diagnostic(stream: CollectView, via: MatchVia) -> DiagnosticView {
    DiagnosticView {
        log_source_id: stream.log_source_id,
        status: MatchStatus::Matched,
        detail: "via "@ + via.name() + " ("@ + via.durability().name() + ")"@,
    }
}

fn matched(stream: &CollectStreamConfig, via: MatchVia) -> (r: CollectDiagnostic)
    ensures
        r@ == matched_diagnostic(stream@, via),
{
    let mut detail = concat("via ", via.as_str());
    detail.append(" (");
    detail.append(via.confidence().as_str());
    detail.append(")");
    CollectDiagnostic {
        log_source_id: stream.log_source_id.clone(),
        status: MatchStatus::Matched,
        detail,
    }
}

/// The diagnostic of a miss.
pub open spec fn missed(stream: CollectView, detail: Seq<char>) -> DiagnosticView {
    DiagnosticView { log_source_id: stream.log_source_id, status: MatchStatus::NotFound, detail }
}

fn not_found(stream: &CollectStreamConfig, detail: String) -> (r: CollectDiagnostic)
    ensures
        r@ == missed(stream@, detail@),
{
    CollectDiagnostic {
        log_source_id: stream.log_source_id.clone(),
        status: MatchStatus::NotFound,
        detail,
    }
}

/// The tailed file that a directive stands for at a path.
pub open spec fn file_stream(
    stream: CollectView,
    path: Seq<char>,
    source_format: FileSourceFormat,
) -> LogStreamView {
    LogStreamView {
        log_source_id: stream.log_source_id,
        path,
        endpoint: stream.subbox_endpoint,
        archive_id: stream.archive_id,
        repo_id: stream.repo_id,
        stamp_resource_identifier: stream.stamp_resource_identifier,
        source_format,
        multiline: stream.multiline,
        config_hash: log_stream_hash(
            path,
            stream.subbox_endpoint,
            stream.archive_id,
            stream.repo_id,
            stream.multiline,
            source_format,
            stream.stamp_resource_identifier,
        ),
    }
}

fn log_stream_from_collect(
    stream: &CollectStreamConfig,
    path: &str,
    source_format: FileSourceFormat,
) -> (r: LogStreamConfig)
    ensures
        r@ == file_stream(stream@, path@, source_format),
{
    let config_hash = LogStreamConfig::compute_hash(
        path,
        stream.ship_endpoint(),
        stream.archive_id.as_str(),
        stream.repo_id.as_str(),
        stream.multiline.as_ref(),
        source_format,
        stream.stamp_resource_identifier,
    );
    let r = LogStreamConfig {
        log_source_id: stream.log_source_id.clone(),
        path: path.to_owned(),
        endpoint: stream.subbox_endpoint.clone(),
        archive_id: stream.archive_id.clone(),
        repo_id: stream.repo_id.clone(),
        stamp_resource_identifier: stream.stamp_resource_identifier,
        source_format,
        multiline: copy_multiline(&stream.multiline),
        config_hash,
    };
    assert(r@ =~= file_stream(stream@, path@, source_format));
    r
}

/// The streamed source that a directive stands for.
pub open spec fn streamed(stream: CollectView, access_method: StreamAccessView) -> StreamingView {
    StreamingView {
        log_source_id: stream.log_source_id,
        access_method,
        endpoint: stream.subbox_endpoint,
        archive_id: stream.archive_id,
        repo_id: stream.repo_id,
        stamp_resource_identifier: stream.stamp_resource_identifier,
        multiline: stream.multiline,
        config_hash: stream.config_hash,
    }
}

fn streaming_source(stream: &CollectStreamConfig, access_method: StreamAccessMethod) -> (r:
    StreamingSourceConfig)
    ensures
        r@ == streamed(stream@, access_method@),
{
    let r = StreamingSourceConfig {
        log_source_id: stream.log_source_id.clone(),
        access_method,
        endpoint: stream.subbox_endpoint.clone(),
        archive_id: stream.archive_id.clone(),
        repo_id: stream.repo_id.clone(),
        stamp_resource_identifier: stream.stamp_resource_identifier,
        multiline: copy_multiline(&stream.multiline),
        config_hash: stream.config_hash.clone(),
    };
    assert(r@ =~= streamed(stream@, access_method@));
    r
}

/// `r` with a source in the lane that its access method demands.
pub open spec fn routed(
    r: ResolvedView,
    stream: CollectView,
    method: AccessMethod,
    locator: Seq<char>,
) -> ResolvedView {
    let with_file = |f: FileSourceFormat|
        ResolvedView { file_streams: r.file_streams.push(file_stream(stream, locator, f)), ..r };
    let with_stream = |a: StreamAccessView|
        ResolvedView { streaming_sources: r.streaming_sources.push(streamed(stream, a)), ..r };
    match method {
        AccessMethod::File => with_file(FileSourceFormat::Plain),
        AccessMethod::DockerJsonFile => with_file(FileSourceFormat::DockerJson),
        AccessMethod::Kubernetes => with_file(FileSourceFormat::KubernetesCri),
        AccessMethod::DockerApi => with_stream(StreamAccessView::DockerApi(locator)),
        AccessMethod::Journald => with_stream(StreamAccessView::Journald(locator)),
        AccessMethod::WindowsEventLog => with_stream(StreamAccessView::WindowsEventLog(locator)),
    }
}

/// Adds a source to the lane that its access method demands.
pub fn route_source(
    resolved: &mut ResolvedCollectStreams,
    stream: &CollectStreamConfig,
    access_method: AccessMethod,
    access_locator: String,
)
    ensures
        final(resolved)@ == routed(old(resolved)@, stream@, access_method, access_locator@),
{
    match access_method {
        AccessMethod::File => {
            resolved.push_file(
                log_stream_from_collect(stream, access_locator.as_str(), FileSourceFormat::Plain),
            );
        },
        AccessMethod::DockerJsonFile => {
            resolved.push_file(
                log_stream_from_collect(
                    stream,
                    access_locator.as_str(),
                    FileSourceFormat::DockerJson,
                ),
            );
        },
        AccessMethod::Kubernetes => {
            resolved.push_file(
                log_stream_from_collect(
                    stream,
                    access_locator.as_str(),
                    FileSourceFormat::KubernetesCri,
                ),
            );
        },
        AccessMethod::DockerApi => {
            resolved.push_streaming(
                streaming_source(
                    stream,
                    StreamAccessMethod::DockerApi { container_id: access_locator },
                ),
            );
        },
        AccessMethod::Journald => {
            resolved.push_streaming(
                streaming_source(stream, StreamAccessMethod::Journald { unit: access_locator }),
            );
        },
        AccessMethod::WindowsEventLog => {
            resolved.push_streaming(
                streaming_source(
                    stream,
                    StreamAccessMethod::WindowsEventLog { channel: access_locator },
                ),
            );
        },
    }
}

/// What a directive identifies its source by.
pub open spec fn identifier_of(stream: CollectView) -> Seq<char> {
    if stream.container_identifier.len() > 0 {
        stream.container_identifier
    } else {
        stream.locator
    }
}

/// What a match adds. A source that is claimed already yields no second one.
pub open spec fn with_match(
    r: ResolvedView,
    stream: CollectView,
    m: MatchView,
    claimed: Seq<Seq<char>>,
) -> ResolvedView {
    let id = identifier_of(stream);
    match m {
        MatchView::Matched(access) => if claimed.contains(access.access_locator) {
            diagnosed(
                r,
                DiagnosticView {
                    log_source_id: stream.log_source_id,
                    status: MatchStatus::Matched,
                    detail: "container claimed by a service description"@,
                },
            )
        } else {
            diagnosed(
                routed(r, stream, access.access_method, access.access_locator),
                matched_diagnostic(stream, access.matched_via),
            )
        },
        MatchView::Ambiguous(n) => diagnosed(
            r,
            DiagnosticView {
                log_source_id: stream.log_source_id,
                status: MatchStatus::Ambiguous,
                detail: decimal(n) + " discovered sources matched "@ + stream.matching_strategy
                    + " ambiguously"@,
            },
        ),
        MatchView::NotFound => diagnosed(
            r,
            missed(
                stream,
                "no discovered loggable for "@ + stream.matching_strategy + "="@ + id,
            ),
        ),
    }
}

/// Whether `after` is what one directive makes of `before`. An event log channel
/// is taken by its name and a file by its path; anything else is resolved among
/// what was discovered.
pub open spec fn resolves_to(
    before: ResolvedView,
    stream: CollectView,
    cache: CacheView,
    claimed: Seq<Seq<char>>,
    files: Set<Seq<char>>,
    after: ResolvedView,
) -> bool {
    let id = identifier_of(stream);
    let strategy = stream.matching_strategy;
    if id.len() == 0 {
        after == diagnosed(before, missed(stream, "missing locator"@))
    } else if event_log_method(strategy) {
        after == diagnosed(
            routed(before, stream, AccessMethod::WindowsEventLog, id),
            matched_diagnostic(stream, MatchVia::WindowsEventLog),
        )
    } else if strategy == "file_path"@ {
        if files.contains(id) {
            after == diagnosed(
                routed(before, stream, AccessMethod::File, id),
                matched_diagnostic(stream, MatchVia::FilePath),
            )
        } else {
            after == diagnosed(before, missed(stream, "no file at "@ + id))
        }
    } else {
        exists|m: MatchView| #[trigger]
            resolution(cache, id, loggable_type(strategy), files, m) && after == with_match(
                before,
                stream,
                m,
                claimed,
            )
    }
}

/// Whether `after` is what directives make of `before`, one after another.
pub open spec fn all_resolve_to(
    before: ResolvedView,
    streams: Seq<CollectView>,
    cache: CacheView,
    claimed: Seq<Seq<char>>,
    files: Set<Seq<char>>,
    after: ResolvedView,
) -> bool
    decreases streams.len(),
{
    if streams.len() == 0 {
        after == before
    } else {
        exists|mid: ResolvedView|
            all_resolve_to(before, streams.drop_last(), cache, claimed, files, mid) && #[trigger]
            resolves_to(mid, streams.last(), cache, claimed, files, after)
    }
}

/// What directives make of something is determined.
pub proof fn directives_resolve_one_way(
    before: ResolvedView,
    streams: Seq<CollectView>,
    cache: CacheView,
    claimed: Seq<Seq<char>>,
    files: Set<Seq<char>>,
    a: ResolvedView,
    b: ResolvedView,
)
    requires
        all_resolve_to(before, streams, cache, claimed, files, a),
        all_resolve_to(before, streams, cache, claimed, files, b),
    ensures
        a == b,
    decreases streams.len(),
{
    if streams.len() > 0 {
        let rest = streams.drop_last();
        let stream = streams.last();
        let x = choose|mid: ResolvedView|
            all_resolve_to(before, rest, cache, claimed, files, mid) && #[trigger] resolves_to(
                mid,
                stream,
                cache,
                claimed,
                files,
                a,
            );
        let y = choose|mid: ResolvedView|
            all_resolve_to(before, rest, cache, claimed, files, mid) && #[trigger] resolves_to(
                mid,
                stream,
                cache,
                claimed,
                files,
                b,
            );
        directives_resolve_one_way(before, rest, cache, claimed, files, x, y);
        let id = identifier_of(stream);
        let kind = loggable_type(stream.matching_strategy);
        if id.len() > 0 && !event_log_method(stream.matching_strategy) && stream.matching_strategy
            != "file_path"@ {
            let m = choose|m: MatchView| #[trigger]
                resolution(cache, id, kind, files, m) && a == with_match(x, stream, m, claimed);
            let n = choose|m: MatchView| #[trigger]
                resolution(cache, id, kind, files, m) && b == with_match(y, stream, m, claimed);
            resolution_is_deterministic(cache, id, kind, files, m, n);
        }
    }
}

fn resolve_one(
    resolved: &mut ResolvedCollectStreams,
    stream: &CollectStreamConfig,
    cache: &DiscoveryCache,
    claimed_locators: &Vec<String>,
    files: &LocalFiles,
)
    ensures
        resolves_to(
            old(resolved)@,
            stream@,
            cache@,
            strings(claimed_locators@),
            files@,
            final(resolved)@,
        ),
{
    let identifier = if !stream.container_identifier.as_str().is_empty() {
        stream.container_identifier.as_str()
    } else {
        stream.locator.as_str()
    };
    if identifier.is_empty() {
        resolved.push_diagnostic(not_found(stream, "missing locator".to_owned()));
        return;
    }
    if is_windows_event_log_method(stream.matching_strategy.as_str()) {
        route_source(resolved, stream, AccessMethod::WindowsEventLog, identifier.to_owned());
        resolved.push_diagnostic(matched(stream, MatchVia::WindowsEventLog));
        return;
    }
    if str_eq(stream.matching_strategy.as_str(), "file_path") {
        if files.is_file(identifier) {
            route_source(resolved, stream, AccessMethod::File, identifier.to_owned());
            resolved.push_diagnostic(matched(stream, MatchVia::FilePath));
        } else {
            resolved.push_diagnostic(not_found(stream, concat("no file at ", identifier)));
        }
        return;
    }
    let kind = infer_loggable_type(stream.matching_strategy.as_str());
    let m = cache.resolve(identifier, kind, files);
    let ghost v = m@;
    assert(resolution(cache@, identifier@, loggable_type(stream@.matching_strategy), files@, v));
    match m {
        CollectMatch::Matched(access) => {
            if contains_string(claimed_locators, access.access_locator.as_str()) {
                resolved.push_diagnostic(
                    CollectDiagnostic {
                        log_source_id: stream.log_source_id.clone(),
                        status: MatchStatus::Matched,
                        detail: "container claimed by a service description".to_owned(),
                    },
                );
            } else {
                push_resolved_source(resolved, stream, access);
            }
        },
        CollectMatch::Ambiguous { candidates } => {
            let mut detail = concat(
                decimal_of(candidates as u64).as_str(),
                " discovered sources matched ",
            );
            detail.append(stream.matching_strategy.as_str());
            detail.append(" ambiguously");
            resolved.push_diagnostic(
                CollectDiagnostic {
                    log_source_id: stream.log_source_id.clone(),
                    status: MatchStatus::Ambiguous,
                    detail,
                },
            );
        },
        CollectMatch::NotFound => {
            let mut detail = concat(
                "no discovered loggable for ",
                stream.matching_strategy.as_str(),
            );
            detail.append("=");
            detail.append(identifier);
            resolved.push_diagnostic(not_found(stream, detail));
        },
    }
    assert(resolved@ == with_match(old(resolved)@, stream@, v, strings(claimed_locators@)));
}

fn push_resolved_source(
    resolved: &mut ResolvedCollectStreams,
    stream: &CollectStreamConfig,
    access: ResolvedAccess,
)
    ensures
        final(resolved)@ == diagnosed(
            routed(old(resolved)@, stream@, access@.access_method, access@.access_locator),
            matched_diagnostic(stream@, access@.matched_via),
        ),
{
    let via = access.matched_via;
    route_source(resolved, stream, access.access_method, access.access_locator);
    resolved.push_diagnostic(matched(stream, via));
}

/// Resolves directives, leaving out the sources that are claimed already: one
/// pipeline for each container.
pub fn resolve_collect_streams_into(
    resolved: &mut ResolvedCollectStreams,
    streams: &Vec<CollectStreamConfig>,
    cache: &DiscoveryCache,
    claimed_locators: &Vec<String>,
    files: &LocalFiles,
)
    ensures
        all_resolve_to(
            old(resolved)@,
            collect_views(streams@),
            cache@,
            strings(claimed_locators@),
            files@,
            final(resolved)@,
        ),
{
    let ghost all = collect_views(streams@);
    let ghost start = resolved@;
    let ghost claimed = strings(claimed_locators@);
    let mut i: usize = 0;
    while i < streams.len()
        invariant
            i <= streams@.len(),
            all == collect_views(streams@),
            claimed == strings(claimed_locators@),
            all_resolve_to(start, all.take(i as int), cache@, claimed, files@, resolved@),
        decreases streams.len() - i,
    {
        let ghost mid = resolved@;
        proof {
            assert(all.take(i + 1).drop_last() =~= all.take(i as int));
            assert(all.take(i + 1).last() == streams@[i as int]@);
        }
        resolve_one(resolved, &streams[i], cache, claimed_locators, files);
        proof {
            let next = all.take(i + 1);
            assert(all_resolve_to(start, next.drop_last(), cache@, claimed, files@, mid));
            assert(resolves_to(mid, next.last(), cache@, claimed, files@, resolved@));
            assert(all_resolve_to(start, next, cache@, claimed, files@, resolved@));
        }
        i = i + 1;
    }
    assert(all.take(i as int) =~= all);
}

/// Resolves directives among what was discovered. `files` are the regular files
/// that the host was just seen to hold.
pub fn resolve_collect_streams(
    streams: &Vec<CollectStreamConfig>,
    cache: &DiscoveryCache,
    files: &LocalFiles,
) -> (r: ResolvedCollectStreams)
    ensures
        all_resolve_to(
            nothing_resolved(),
            collect_views(streams@),
            cache@,
            seq![],
            files@,
            r@,
        ),
{
    let mut resolved = ResolvedCollectStreams::default();
    let none: Vec<String> = Vec::new();
    assert(strings(none@) =~= seq![]);
    resolve_collect_streams_into(&mut resolved, streams, cache, &none, files);
    resolved
}

} // verus!
