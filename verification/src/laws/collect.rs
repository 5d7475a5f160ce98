//! What is collected, said of the directives, the descriptions and the containers.
use vstd::prelude::*;
use vstd::string::*;
use vstd::utf8::encode_utf8;

use crate::config::hash::{can_be_barred, no_bar};
use crate::config::logs::{
    collect_entry, collect_fields, collect_hash, identifier_of, log_stream_fields, log_stream_hash,
    multiline_in, resolves_to, routed, stamp_part, with_match, CollectView, DiagnosticView,
    FileSourceFormat, MultilineView, ResolvedView,
};
use crate::config::services::{
    claim, claim_all, claim_each, description_in, sanitized, selects, source_id, no_leading,
    no_trailing, underscored, Claims, DescriptionView,
};
use crate::config::streaming::StreamAccessView;
use crate::digest::{sha256, sha256_hex};
use crate::discovery::cache::{
    loggable_type, resolution, CacheView, MatchStatus, MatchVia, MatchView,
};
use crate::discovery::container::{AccessMethod, ContainerView};
use crate::json::{text_entries, JsonView};
use crate::laws::config::has_text;
use crate::text::{decimal, joined};

verus! {

/// A directive is what its entry says: the source by its key, the locator, the route, how it
/// is looked for, and whether its lines are stamped. One that lacks a locator or a route is
/// none.
pub proof fn directives_are_read(
    key: Seq<char>,
    entry: JsonView,
    locator: Seq<char>,
    endpoint: Seq<char>,
    archive: Seq<char>,
    repo: Seq<char>,
    s: Seq<char>,
)
    ensures
        key.len() > 0 && has_text(entry, "locator"@, locator) && has_text(
            entry,
            "subbox_endpoint"@,
            endpoint,
        ) && has_text(entry, "archive_id"@, archive) && has_text(entry, "repo_id"@, repo)
            ==> collect_entry((key, entry)) is Some && {
            let c = collect_entry((key, entry))->0;
            &&& c.log_source_id == key
            &&& c.locator == locator
            &&& c.subbox_endpoint == endpoint
            &&& c.archive_id == archive
            &&& c.repo_id == repo
            &&& has_text(entry, "matching_strategy"@, s) ==> c.matching_strategy == s
            &&& entry.get("matching_strategy"@) is None && has_text(entry, "access_method"@, s)
                ==> c.matching_strategy == s
            &&& entry.get("matching_strategy"@) is None && entry.get("access_method"@) is None
                ==> c.matching_strategy.len() == 0
            &&& has_text(entry, "container_identifier"@, s) ==> c.container_identifier == s
            &&& entry.get("container_identifier"@) is None ==> c.container_identifier.len() == 0
            &&& c.stamp_resource_identifier <==> entry.get("stamp_resource_identifier"@) == Some(
                JsonView::Bool(true),
            )
            &&& c.multiline == multiline_in(entry.get("multiline"@))
            &&& c.config_hash == collect_hash(
                c.locator,
                c.matching_strategy,
                c.subbox_endpoint,
                c.archive_id,
                c.repo_id,
                c.multiline,
                c.stamp_resource_identifier,
            )
        },
        collect_entry((key, entry)) is Some ==> {
            let c = collect_entry((key, entry))->0;
            &&& key.len() > 0
            &&& has_text(entry, "locator"@, c.locator)
            &&& has_text(entry, "subbox_endpoint"@, c.subbox_endpoint)
            &&& has_text(entry, "archive_id"@, c.archive_id)
            &&& has_text(entry, "repo_id"@, c.repo_id)
        },
{
}

/// Multiline settings need a start pattern; the other two are zero where they are not given,
/// and the timeout goes by either of its names, the longer one first.
pub proof fn multiline_settings_are_read(value: JsonView, pattern: Seq<char>, n: u32, m: u32)
    ensures
        multiline_in(None) is None,
        has_text(value, "start_pattern"@, pattern) ==> multiline_in(Some(value)) is Some && {
            let s = multiline_in(Some(value))->0;
            &&& s.start_pattern == pattern
            &&& value.get("max_lines"@) == Some(JsonView::Unsigned(n as u64)) ==> s.max_lines == n
            &&& value.get("max_lines"@) is None ==> s.max_lines == 0
            &&& value.get("timeout_seconds"@) == Some(JsonView::Unsigned(n as u64))
                ==> s.timeout_secs == n
            &&& value.get("timeout_seconds"@) is None && value.get("timeout_secs"@) == Some(
                JsonView::Unsigned(m as u64),
            ) ==> s.timeout_secs == m
            &&& value.get("timeout_seconds"@) is None && value.get("timeout_secs"@) is None
                ==> s.timeout_secs == 0
        },
        multiline_in(Some(value)) is Some ==> has_text(
            value,
            "start_pattern"@,
            multiline_in(Some(value))->0.start_pattern,
        ),
{
}

/// A source goes into the lane of its reader, once, with all that its directive says: files
/// with their framing, the rest as streams.
pub proof fn sources_go_into_their_lane(
    r: ResolvedView,
    stream: CollectView,
    method: AccessMethod,
    locator: Seq<char>,
)
    ensures
        ({
            let after = routed(r, stream, method, locator);
            let file = method == AccessMethod::File || method == AccessMethod::DockerJsonFile
                || method == AccessMethod::Kubernetes;
            &&& after.diagnostics == r.diagnostics
            &&& after.checkpoint_adoptions == r.checkpoint_adoptions
            &&& file ==> after.streaming_sources == r.streaming_sources && after.file_streams.len()
                == r.file_streams.len() + 1 && after.file_streams.drop_last() == r.file_streams && {
                let s = after.file_streams.last();
                &&& s.path == locator
                &&& s.log_source_id == stream.log_source_id
                &&& s.endpoint == stream.subbox_endpoint
                &&& s.archive_id == stream.archive_id
                &&& s.repo_id == stream.repo_id
                &&& s.stamp_resource_identifier == stream.stamp_resource_identifier
                &&& s.multiline == stream.multiline
                &&& method == AccessMethod::File ==> s.source_format == FileSourceFormat::Plain
                &&& method == AccessMethod::DockerJsonFile ==> s.source_format
                    == FileSourceFormat::DockerJson
                &&& method == AccessMethod::Kubernetes ==> s.source_format
                    == FileSourceFormat::KubernetesCri
                &&& s.config_hash == log_stream_hash(
                    s.path,
                    s.endpoint,
                    s.archive_id,
                    s.repo_id,
                    s.multiline,
                    s.source_format,
                    s.stamp_resource_identifier,
                )
            }
            &&& !file ==> after.file_streams == r.file_streams && after.streaming_sources.len()
                == r.streaming_sources.len() + 1 && after.streaming_sources.drop_last()
                == r.streaming_sources && {
                let s = after.streaming_sources.last();
                &&& s.log_source_id == stream.log_source_id
                &&& s.endpoint == stream.subbox_endpoint
                &&& s.archive_id == stream.archive_id
                &&& s.repo_id == stream.repo_id
                &&& s.stamp_resource_identifier == stream.stamp_resource_identifier
                &&& s.multiline == stream.multiline
                &&& s.config_hash == stream.config_hash
                &&& method == AccessMethod::DockerApi ==> s.access_method
                    == StreamAccessView::DockerApi(locator)
                &&& method == AccessMethod::Journald ==> s.access_method
                    == StreamAccessView::Journald(locator)
                &&& method == AccessMethod::WindowsEventLog ==> s.access_method
                    == StreamAccessView::WindowsEventLog(locator)
            }
        }),
{
    let after = routed(r, stream, method, locator);
    if after.file_streams.len() > 0 {
        assert(after.file_streams.len() == r.file_streams.len() + 1
            ==> after.file_streams.drop_last() =~= r.file_streams);
    }
    if after.streaming_sources.len() > 0 {
        assert(after.streaming_sources.len() == r.streaming_sources.len() + 1
            ==> after.streaming_sources.drop_last() =~= r.streaming_sources);
    }
}

/// Whether nothing is added but one diagnostic.
pub open spec fn only_diagnosed(
    before: ResolvedView,
    after: ResolvedView,
    source: Seq<char>,
    status: MatchStatus,
    detail: Seq<char>,
) -> bool {
    &&& after.file_streams == before.file_streams
    &&& after.streaming_sources == before.streaming_sources
    &&& after.checkpoint_adoptions == before.checkpoint_adoptions
    &&& after.diagnostics == before.diagnostics.push(
        DiagnosticView { log_source_id: source, status, detail },
    )
}

/// Whether a source is added in the lane of its reader, with the diagnostic of a match.
pub open spec fn sourced(
    before: ResolvedView,
    after: ResolvedView,
    stream: CollectView,
    method: AccessMethod,
    locator: Seq<char>,
    detail: Seq<char>,
) -> bool {
    let with = routed(before, stream, method, locator);
    &&& after.file_streams == with.file_streams
    &&& after.streaming_sources == with.streaming_sources
    &&& after.checkpoint_adoptions == before.checkpoint_adoptions
    &&& after.diagnostics == before.diagnostics.push(
        DiagnosticView {
            log_source_id: stream.log_source_id,
            status: MatchStatus::Matched,
            detail,
        },
    )
}

/// A directive is looked for by its container identifier, else by its locator. An event log
/// channel is taken by its name, a file by its path if it is there; anything else is what
/// was discovered. A source that is claimed already, an ambiguous one and a missing one
/// yield a diagnostic and no source.
pub proof fn directives_yield_at_most_one_source(
    before: ResolvedView,
    stream: CollectView,
    cache: CacheView,
    claimed: Seq<Seq<char>>,
    files: Set<Seq<char>>,
    after: ResolvedView,
    m: MatchView,
)
    requires
        resolves_to(before, stream, cache, claimed, files, after),
    ensures
        ({
            let id = if stream.container_identifier.len() > 0 {
                stream.container_identifier
            } else {
                stream.locator
            };
            let s = stream.matching_strategy;
            let source = stream.log_source_id;
            let channel = s == "windows_event"@ || s == "windows_event_log"@ || s == "event_log"@
                || s == "eventlog"@;
            &&& id.len() == 0 ==> only_diagnosed(
                before,
                after,
                source,
                MatchStatus::NotFound,
                "missing locator"@,
            )
            &&& id.len() > 0 && channel ==> sourced(
                before,
                after,
                stream,
                AccessMethod::WindowsEventLog,
                id,
                "via windows_event_log (strong)"@,
            )
            &&& id.len() > 0 && s == "file_path"@ && files.contains(id) ==> sourced(
                before,
                after,
                stream,
                AccessMethod::File,
                id,
                "via file_path (strong)"@,
            )
            &&& id.len() > 0 && s == "file_path"@ && !files.contains(id) ==> only_diagnosed(
                before,
                after,
                source,
                MatchStatus::NotFound,
                "no file at "@ + id,
            )
            &&& id.len() > 0 && !channel && s != "file_path"@ && resolution(
                cache,
                id,
                loggable_type(s),
                files,
                m,
            ) ==> match m {
                MatchView::Matched(a) => if claimed.contains(a.access_locator) {
                    only_diagnosed(
                        before,
                        after,
                        source,
                        MatchStatus::Matched,
                        "container claimed by a service description"@,
                    )
                } else {
                    sourced(
                        before,
                        after,
                        stream,
                        a.access_method,
                        a.access_locator,
                        "via "@ + a.matched_via.name() + " ("@ + a.matched_via.durability().name()
                            + ")"@,
                    )
                },
                MatchView::Ambiguous(n) => only_diagnosed(
                    before,
                    after,
                    source,
                    MatchStatus::Ambiguous,
                    decimal(n) + " discovered sources matched "@ + s + " ambiguously"@,
                ),
                MatchView::NotFound => only_diagnosed(
                    before,
                    after,
                    source,
                    MatchStatus::NotFound,
                    "no discovered loggable for "@ + s + "="@ + id,
                ),
            }
        }),
{
    let id = identifier_of(stream);
    let s = stream.matching_strategy;
    lemma_strategies();
    lemma_details();
    if id.len() > 0 && s != "file_path"@ && resolution(cache, id, loggable_type(s), files, m) {
        if !(s == "windows_event"@ || s == "windows_event_log"@ || s == "event_log"@ || s
            == "eventlog"@) {
            let x = choose|x: MatchView| #[trigger]
                resolution(cache, id, loggable_type(s), files, x) && after == with_match(
                    before,
                    stream,
                    x,
                    claimed,
                );
            crate::discovery::cache::resolution_is_deterministic(
                cache,
                id,
                loggable_type(s),
                files,
                m,
                x,
            );
        }
    }
}

proof fn lemma_strategies()
    ensures
        "windows_event"@.len() == 13,
        "windows_event_log"@.len() == 17,
        "event_log"@.len() == 9,
        "eventlog"@.len() == 8,
        "file_path"@.len() == 9,
        "event_log"@ != "file_path"@,
{
    reveal_strlit("windows_event");
    reveal_strlit("windows_event_log");
    reveal_strlit("event_log");
    reveal_strlit("eventlog");
    reveal_strlit("file_path");
    assert("event_log"@[0] == 'e' && "file_path"@[0] == 'f');
}

proof fn lemma_details()
    ensures
        "via "@ + MatchVia::WindowsEventLog.name() + " ("@
            + MatchVia::WindowsEventLog.durability().name() + ")"@
            == "via windows_event_log (strong)"@,
        "via "@ + MatchVia::FilePath.name() + " ("@ + MatchVia::FilePath.durability().name() + ")"@
            == "via file_path (strong)"@,
{
    reveal_strlit("via ");
    reveal_strlit(" (");
    reveal_strlit(")");
    reveal_strlit("windows_event_log");
    reveal_strlit("file_path");
    reveal_strlit("strong");
    reveal_strlit("via windows_event_log (strong)");
    reveal_strlit("via file_path (strong)");
    assert("via "@ + "windows_event_log"@ + " ("@ + "strong"@ + ")"@
        =~= "via windows_event_log (strong)"@);
    assert("via "@ + "file_path"@ + " ("@ + "strong"@ + ")"@ =~= "via file_path (strong)"@);
}

// ---------------------------------------------------------------------------
// Hashes
// ---------------------------------------------------------------------------

/// The part of multiline settings.
pub open spec fn multiline_text(m: Option<MultilineView>) -> Seq<char> {
    match m {
        Some(m) => m.start_pattern + seq!['|'] + decimal(m.max_lines as nat) + seq!['|'] + decimal(
            m.timeout_secs as nat,
        ),
        None => seq!['-'],
    }
}

/// Where no field holds a bar, a directive's hash is the SHA-256 of its fields with bars
/// between them: locator, strategy, endpoint, archive, repository, multiline settings and
/// stamp.
pub proof fn directives_hash_their_fields(c: CollectView)
    requires
        no_bar(c.locator),
        no_bar(c.matching_strategy),
        no_bar(c.subbox_endpoint),
        no_bar(c.archive_id),
        no_bar(c.repo_id),
    ensures
        collect_hash(
            c.locator,
            c.matching_strategy,
            c.subbox_endpoint,
            c.archive_id,
            c.repo_id,
            c.multiline,
            c.stamp_resource_identifier,
        ) == sha256_hex(
            encode_utf8(
                c.locator + seq!['|'] + c.matching_strategy + seq!['|'] + c.subbox_endpoint
                    + seq!['|'] + c.archive_id + seq!['|'] + c.repo_id + seq!['|'] + multiline_text(
                    c.multiline,
                ) + seq!['|'] + (if c.stamp_resource_identifier {
                    "stamp"@
                } else {
                    "nostamp"@
                }),
            ),
        ),
{
    reveal_strlit("|");
    reveal_strlit("-");
    assert("|"@ =~= seq!['|']);
    assert("-"@ =~= seq!['-']);
    let fields = collect_fields(
        c.locator,
        c.matching_strategy,
        c.subbox_endpoint,
        c.archive_id,
        c.repo_id,
        c.multiline,
        c.stamp_resource_identifier,
    );
    lemma_stamp_has_no_bar(c.stamp_resource_identifier);
    assert(can_be_barred(fields, 5));
    lemma_join7(fields);
}

proof fn lemma_stamp_has_no_bar(stamp: bool)
    ensures
        no_bar(stamp_part(stamp)),
        stamp_part(stamp) == if stamp {
            "stamp"@
        } else {
            "nostamp"@
        },
{
    reveal_strlit("stamp");
    reveal_strlit("nostamp");
}

proof fn lemma_join7(f: Seq<Seq<char>>)
    requires
        f.len() == 7,
    ensures
        joined(f, "|"@) == f[0] + "|"@ + f[1] + "|"@ + f[2] + "|"@ + f[3] + "|"@ + f[4] + "|"@ + f[5]
            + "|"@ + f[6],
{
    let a = f.drop_last();
    let b = a.drop_last();
    let c = b.drop_last();
    let d = c.drop_last();
    let e = d.drop_last();
    let g = e.drop_last();
    assert(joined(f, "|"@) == joined(a, "|"@) + "|"@ + f[6]);
    assert(joined(a, "|"@) == joined(b, "|"@) + "|"@ + f[5]);
    assert(joined(b, "|"@) == joined(c, "|"@) + "|"@ + f[4]);
    assert(joined(c, "|"@) == joined(d, "|"@) + "|"@ + f[3]);
    assert(joined(d, "|"@) == joined(e, "|"@) + "|"@ + f[2]);
    assert(joined(e, "|"@) == joined(g, "|"@) + "|"@ + f[1]);
    assert(joined(g, "|"@) == f[0]);
}

/// The same of a tailed file: path, endpoint, archive, repository, multiline settings,
/// format and stamp.
pub proof fn streams_hash_their_fields(
    path: Seq<char>,
    endpoint: Seq<char>,
    archive: Seq<char>,
    repo: Seq<char>,
    multiline: Option<MultilineView>,
    format: FileSourceFormat,
    stamp: bool,
)
    requires
        no_bar(path),
        no_bar(endpoint),
        no_bar(archive),
        no_bar(repo),
    ensures
        log_stream_hash(path, endpoint, archive, repo, multiline, format, stamp) == sha256_hex(
            encode_utf8(
                path + seq!['|'] + endpoint + seq!['|'] + archive + seq!['|'] + repo + seq!['|']
                    + multiline_text(multiline) + seq!['|'] + (match format {
                    FileSourceFormat::Plain => "file"@,
                    FileSourceFormat::DockerJson => "docker-json"@,
                    FileSourceFormat::KubernetesCri => "k8s-cri"@,
                }) + seq!['|'] + (if stamp {
                    "stamp"@
                } else {
                    "nostamp"@
                }),
            ),
        ),
{
    reveal_strlit("|");
    reveal_strlit("-");
    reveal_strlit("file");
    reveal_strlit("docker-json");
    reveal_strlit("k8s-cri");
    assert("|"@ =~= seq!['|']);
    assert("-"@ =~= seq!['-']);
    let fields = log_stream_fields(path, endpoint, archive, repo, multiline, format, stamp);
    lemma_stamp_has_no_bar(stamp);
    assert(no_bar(format.part()));
    assert(can_be_barred(fields, 4));
    lemma_join7(fields);
}

// ---------------------------------------------------------------------------
// Descriptions
// ---------------------------------------------------------------------------

/// A selector matches a container just if it names something, and all that it names is so.
pub proof fn selectors_match_what_they_name(
    selector: Map<Seq<char>, Seq<char>>,
    atoms: Map<Seq<char>, Seq<char>>,
    kind: Seq<char>,
    value: Seq<char>,
)
    ensures
        selects(Map::<Seq<char>, Seq<char>>::empty().insert(kind, value), atoms) <==> (
        atoms.contains_key(kind) && atoms[kind] == value),
        !selector.contains_key(kind) ==> (selects(selector.insert(kind, value), atoms) <==> (
        atoms.contains_key(kind) && atoms[kind] == value) && (selector.dom() == Set::<
            Seq<char>,
        >::empty() || selects(selector, atoms))),
{
    let one = Map::<Seq<char>, Seq<char>>::empty().insert(kind, value);
    assert(one.contains_key(kind));
    let more = selector.insert(kind, value);
    assert(more.contains_key(kind));
    if !selector.contains_key(kind) {
        if selects(more, atoms) {
            assert(atoms.contains_key(kind) && atoms[kind] == value);
            if selector.dom() != Set::<Seq<char>>::empty() {
                assert(exists|k: Seq<char>| #[trigger] selector.contains_key(k)) by {
                    if forall|k: Seq<char>| !#[trigger] selector.contains_key(k) {
                        assert(selector.dom() =~= Set::<Seq<char>>::empty());
                    }
                }
                assert forall|k: Seq<char>| #[trigger] selector.contains_key(k) implies (
                atoms.contains_key(k) && atoms[k] == selector[k]) by {
                    assert(more.contains_key(k));
                }
            }
        }
        if (atoms.contains_key(kind) && atoms[kind] == value) && (selector.dom() == Set::<
            Seq<char>,
        >::empty() || selects(selector, atoms)) {
            assert forall|k: Seq<char>| #[trigger] more.contains_key(k) implies (
            atoms.contains_key(k) && atoms[k] == more[k]) by {
                if k != kind {
                    assert(selector.contains_key(k));
                    assert(selector.dom().contains(k));
                }
            }
        }
    }
}

/// A description is what its entry says: its slug, its selector, and what it collects by; one
/// whose selector holds anything but texts, or that cannot be shipped, is none.
pub proof fn descriptions_are_read(
    entry: JsonView,
    collect: JsonView,
    entries: Seq<(Seq<char>, JsonView)>,
    id: Seq<char>,
    endpoint: Seq<char>,
    archive: Seq<char>,
    repo: Seq<char>,
    s: Seq<char>,
)
    requires
        entry.get("collect"@) == Some(collect),
        entry.get("selector"@) == Some(JsonView::Object(entries)),
        has_text(collect, "log_source_id"@, id),
        has_text(collect, "subbox_endpoint"@, endpoint),
        has_text(collect, "archive_id"@, archive),
        has_text(collect, "repo_id"@, repo),
    ensures
        text_entries(entries) is Some ==> description_in(entry) is Some && {
            let d = description_in(entry)->0;
            &&& d.selector == text_entries(entries)->0
            &&& d.collect.log_source_id == id
            &&& d.collect.subbox_endpoint == endpoint
            &&& d.collect.archive_id == archive
            &&& d.collect.repo_id == repo
            &&& has_text(entry, "service_slug"@, s) ==> d.service_slug == s
            &&& has_text(collect, "locator"@, s) ==> d.collect.locator == s
            &&& collect.get("locator"@) is None ==> d.collect.locator.len() == 0
        },
        text_entries(entries) is None ==> description_in(entry) is None,
{
}

/// Entries of a selector are its pairs; the last one of a kind counts, and one that is no
/// text spoils all.
pub proof fn selectors_are_read(
    entries: Seq<(Seq<char>, JsonView)>,
    kind: Seq<char>,
    value: Seq<char>,
    other: JsonView,
)
    ensures
        text_entries(Seq::<(Seq<char>, JsonView)>::empty()) == Some(
            Map::<Seq<char>, Seq<char>>::empty(),
        ),
        text_entries(entries) is Some ==> text_entries(entries.push((kind, JsonView::Text(value))))
            == Some(text_entries(entries)->0.insert(kind, value)),
        !(other is Text) ==> text_entries(entries.push((kind, other))) is None,
{
    assert(entries.push((kind, JsonView::Text(value))).drop_last() =~= entries);
    assert(entries.push((kind, other)).drop_last() =~= entries);
}

/// A source of a description is named by the directive and the instance; pods without an
/// identity of their own are told apart by their names.
pub proof fn sources_are_named_by_their_instance(id: Seq<char>, c: ContainerView)
    ensures
        c.runtime == "kubernetes"@ && c.stable_instance_id() == c.stable_id() && c.pod_name.len()
            > 0 ==> source_id(id, c) == id + seq!['/'] + c.stable_instance_id() + seq!['/']
            + c.pod_name,
        !(c.runtime == "kubernetes"@ && c.stable_instance_id() == c.stable_id() && c.pod_name.len()
            > 0) ==> source_id(id, c) == id + seq!['/'] + c.stable_instance_id(),
{
    reveal_strlit("/");
    assert("/"@ =~= seq!['/']);
}

/// The directory of a source holds no slash, backslash, colon, dot or space, and neither
/// begins nor ends with an underscore; all else stays.
pub proof fn directories_are_sanitized(before: Seq<char>, core: Seq<char>, after: Seq<char>)
    requires
        forall|i: int|
            0 <= i < before.len() ==> #[trigger] before[i] == '/' || before[i] == '\\' || before[i]
                == ':' || before[i] == '.' || before[i] == ' ' || before[i] == '_',
        forall|i: int|
            0 <= i < after.len() ==> #[trigger] after[i] == '/' || after[i] == '\\' || after[i]
                == ':' || after[i] == '.' || after[i] == ' ' || after[i] == '_',
        core.len() > 0,
        forall|i: int|
            0 <= i < core.len() ==> #[trigger] core[i] != '/' && core[i] != '\\' && core[i] != ':'
                && core[i] != '.' && core[i] != ' ',
        core[0] != '_',
        core.last() != '_',
    ensures
        sanitized(before + core + after) == core,
{
    let all = before + core + after;
    let u = underscored(all);
    let ub = underscored(before);
    let ua = underscored(after);
    assert(underscored(core) =~= core);
    assert(u =~= ub + core + ua);
    assert forall|i: int| 0 <= i < ub.len() implies #[trigger] ub[i] == '_' by {
        assert(before[i] == '/' || before[i] == '\\' || before[i] == ':' || before[i] == '.'
            || before[i] == ' ' || before[i] == '_');
    }
    assert forall|i: int| 0 <= i < ua.len() implies #[trigger] ua[i] == '_' by {
        assert(after[i] == '/' || after[i] == '\\' || after[i] == ':' || after[i] == '.' || after[i]
            == ' ' || after[i] == '_');
    }
    assert(u =~= ub + (core + ua));
    lemma_leading(ub, core + ua);
    lemma_trailing(core, ua);
}

proof fn lemma_leading(marks: Seq<char>, rest: Seq<char>)
    requires
        forall|i: int| 0 <= i < marks.len() ==> #[trigger] marks[i] == '_',
        rest.len() > 0,
        rest[0] != '_',
    ensures
        no_leading(marks + rest) == rest,
    decreases marks.len(),
{
    let s = marks + rest;
    if marks.len() == 0 {
        assert(s =~= rest);
    } else {
        assert(s[0] == marks[0]);
        assert(s.skip(1) =~= marks.skip(1) + rest);
        lemma_leading(marks.skip(1), rest);
    }
}

proof fn lemma_trailing(rest: Seq<char>, marks: Seq<char>)
    requires
        forall|i: int| 0 <= i < marks.len() ==> #[trigger] marks[i] == '_',
        rest.len() > 0,
        rest.last() != '_',
    ensures
        no_trailing(rest + marks) == rest,
    decreases marks.len(),
{
    let s = rest + marks;
    if marks.len() == 0 {
        assert(s =~= rest);
    } else {
        assert(s.last() == marks.last());
        assert(s.drop_last() =~= rest + marks.drop_last());
        lemma_trailing(rest, marks.drop_last());
    }
}

/// A description claims a container just if nobody has and its selector matches, and makes
/// of it a source for its reader, unless the source's directory is taken or there is nothing
/// to read; the source takes over the state of the description's directive.
pub proof fn descriptions_claim_what_they_select(
    s: Claims,
    d: DescriptionView,
    c: ContainerView,
    files: Set<Seq<char>>,
)
    ensures
        ({
            let after = claim(s, d, c, files);
            let selected = !s.ids.contains(c.id) && selects(d.selector, c.identifier_set());
            let id = source_id(d.collect.log_source_id, c);
            let free = !s.dirs.contains(sanitized(id));
            let readable = c.log_locator(files).len() > 0;
            &&& !selected ==> after == s
            &&& selected ==> after.ids == s.ids.push(c.id)
            &&& selected && !free ==> after.resolved == s.resolved && after.dirs == s.dirs
                && after.locators == s.locators
            &&& selected && free ==> after.dirs == s.dirs.push(sanitized(id))
            &&& selected && free && !readable ==> after.locators == s.locators && only_diagnosed(
                s.resolved,
                after.resolved,
                id,
                MatchStatus::NotFound,
                "matched container "@ + c.stable_instance_id() + " has no readable log locator"@,
            )
            &&& selected && free && readable ==> {
                let stream = CollectView { log_source_id: id, ..d.collect };
                let with = routed(s.resolved, stream, c.access_method(files), c.log_locator(files));
                &&& after.locators == s.locators.push(c.log_locator(files))
                &&& after.resolved.file_streams == with.file_streams
                &&& after.resolved.streaming_sources == with.streaming_sources
                &&& after.resolved.diagnostics == s.resolved.diagnostics.push(
                    DiagnosticView {
                        log_source_id: id,
                        status: MatchStatus::Matched,
                        detail: "via selector (service "@ + d.service_slug + ")"@,
                    },
                )
                &&& after.resolved.checkpoint_adoptions.len()
                    == s.resolved.checkpoint_adoptions.len() + 1
                &&& after.resolved.checkpoint_adoptions.last().legacy_log_source_id
                    == d.collect.log_source_id
                &&& after.resolved.checkpoint_adoptions.last().log_source_id == id
            }
        }),
{
}

/// Descriptions come in their order, and each looks at every container in its order.
pub proof fn descriptions_come_in_order(
    s: Claims,
    ds: Seq<DescriptionView>,
    d: DescriptionView,
    cs: Seq<ContainerView>,
    c: ContainerView,
    files: Set<Seq<char>>,
)
    ensures
        claim_each(s, Seq::<DescriptionView>::empty(), cs, files) == s,
        claim_each(s, ds.push(d), cs, files) == claim_all(
            claim_each(s, ds, cs, files),
            d,
            cs,
            files,
        ),
        claim_all(s, d, Seq::<ContainerView>::empty(), files) == s,
        claim_all(s, d, cs.push(c), files) == claim(claim_all(s, d, cs, files), d, c, files),
{
    assert(ds.push(d).drop_last() =~= ds);
    assert(cs.push(c).drop_last() =~= cs);
}

} // verus!
