//! What a configuration's sections come to, and what a text of JSON says, said of their
//! entries and values.
use vstd::prelude::*;
use vstd::string::*;

use crate::census_entries::stamped;
use crate::config::buffer::buffer_number;
use crate::config::ebpf::{target_of, targets_of};
use crate::config::fields::{empty_key, invalid, not_filled, FieldContext};
use crate::config::logs::{
    adopted, all_resolve_to, collect_directives, collect_entry, diagnosed, event_log_method,
    matched_diagnostic, missed, multiline_part, nothing_resolved, resolves_to, CollectView,
    FileSourceFormat, MultilineView, ResolvedView,
};
use crate::config::metrics::{metrics_entries, metrics_error};
use crate::config::services::{description_in, descriptions_in, AdoptionView};
use crate::config::trace_proxy::{
    bad_entries, bool_error, describes, entry_error, good_entries, listed_names, names_error,
    proxy_entries, proxy_error, TraceProxyStreamConfig,
};
use crate::config::unified::checksum_of;
use crate::digest::sha256_hex;
use crate::discovery::cache::{distinct, reachable, CacheView, MatchStatus, MatchVia};
use crate::discovery::container::ContainerView;
use crate::discovery::docker::{first_host, host_in_meta};
use crate::json::{json_bytes, JsonView};
use crate::laws::config::has_text;
use crate::order::{lex_less, name_key};
use crate::outline::{
    items_in, json_string, json_value_end, members_in, outlined, unspaced, value_len, OutlineView,
};
use crate::seqs::kept;
use crate::text::{decimal, strings};

verus! {

// ---------------------------------------------------------------------------
// Sections
// ---------------------------------------------------------------------------

/// The directives of a configuration are the entries under `collect` that describe one, in
/// order.
pub proof fn directives_stand_under_collect(
    config: JsonView,
    before: Seq<(Seq<char>, JsonView)>,
    entry: (Seq<char>, JsonView),
)
    ensures
        config.get("collect"@) == Some(JsonView::Object(before.push(entry))) ==> {
            let f = |e: (Seq<char>, JsonView)| collect_entry(e);
            &&& collect_entry(entry) is Some ==> collect_directives(config) == kept(before, f).push(
                collect_entry(entry)->0,
            )
            &&& collect_entry(entry) is None ==> collect_directives(config) == kept(before, f)
        },
        config.get("collect"@) is None ==> collect_directives(config).len() == 0,
{
    let f = |e: (Seq<char>, JsonView)| collect_entry(e);
    assert(before.push(entry).drop_last() =~= before);
}

/// The descriptions of a configuration are the items under `services` that describe one, in
/// order.
pub proof fn descriptions_stand_under_services(
    config: JsonView,
    before: Seq<JsonView>,
    item: JsonView,
)
    ensures
        config.get("services"@) == Some(JsonView::Array(before.push(item))) ==> {
            let f = |i: JsonView| description_in(i);
            &&& description_in(item) is Some ==> descriptions_in(config) == kept(before, f).push(
                description_in(item)->0,
            )
            &&& description_in(item) is None ==> descriptions_in(config) == kept(before, f)
        },
        config.get("services"@) is None ==> descriptions_in(config).len() == 0,
{
    let f = |i: JsonView| description_in(i);
    assert(before.push(item).drop_last() =~= before);
}

/// Metrics stand under `metrics` and proxies under `traces`, each with its key.
pub proof fn entries_stand_under_their_section(
    config: JsonView,
    entries: Seq<(Seq<char>, JsonView)>,
)
    ensures
        config.get("metrics"@) == Some(JsonView::Object(entries)) ==> metrics_entries(config)
            == entries,
        config.get("metrics"@) is None ==> metrics_entries(config).len() == 0,
        config.get("traces"@) == Some(JsonView::Object(entries)) ==> proxy_entries(config)
            == entries,
        config.get("traces"@) is None ==> proxy_entries(config).len() == 0,
        targets_of(None).len() == 0,
        targets_of(Some(JsonView::Object(entries))) == kept(
            entries,
            |e: (Seq<char>, JsonView)| target_of(e),
        ),
{
}

/// An entry of the section of traces is a proxy, or has an error under its own key, never
/// both.
pub proof fn entries_are_proxies_or_errors(
    before: Seq<(Seq<char>, JsonView)>,
    entry: (Seq<char>, JsonView),
    addresses: Map<Seq<char>, String>,
)
    ensures
        ({
            let error = entry_error(entry, addresses);
            let good = good_entries(before.push(entry), addresses);
            let bad = bad_entries(before.push(entry), addresses);
            &&& error is None ==> good == good_entries(before, addresses).push(entry) && bad
                == bad_entries(before, addresses)
            &&& error is Some ==> good == good_entries(before, addresses) && bad == bad_entries(
                before,
                addresses,
            ).push(error->0)
            &&& error is Some ==> error->0.entry_id == Some(entry.0) && error->0.section
                == "traces"@
        }),
{
    assert(before.push(entry).drop_last() =~= before);
}

/// An error names the section, the entry, the field, what was expected and what was there.
pub proof fn errors_name_their_field(
    section: &'static str,
    id: &str,
    field: Seq<char>,
    expected: Seq<char>,
    actual: Option<Seq<char>>,
    value: JsonView,
    s: Seq<char>,
)
    ensures
        ({
            let e = invalid(
                FieldContext { section, entry_id: Some(id) },
                field,
                expected,
                actual,
            );
            &&& e.section == section@
            &&& e.entry_id == Some(id@)
            &&& e.field == field
            &&& e.expected == expected
            &&& e.actual == actual
        }),
        invalid(FieldContext { section, entry_id: None }, field, expected, actual).entry_id is None,
        ({
            let e = not_filled(value, field, FieldContext { section, entry_id: None });
            &&& e.field == field
            &&& e.expected == "non-empty string"@
            &&& value.get(field) == Some(JsonView::Text(s)) ==> e.actual == Some(s)
            &&& value.get(field) is None ==> e.actual is None
        }),
        ({
            let e = empty_key(FieldContext { section, entry_id: None });
            &&& e.field == "map_key"@
            &&& e.expected == "non-empty string"@
            &&& e.actual == Some(Seq::<char>::empty())
        }),
{
}

/// An entry of metrics lacks its key, or the first of the three texts that it needs.
pub proof fn metrics_lack_their_first_missing_field(
    key: Seq<char>,
    value: JsonView,
    a: Seq<char>,
    b: Seq<char>,
    c: Seq<char>,
)
    ensures
        has_text(value, "subbox_endpoint"@, a) && has_text(value, "archive_id"@, b) && has_text(
            value,
            "repo_id"@,
            c,
        ) && key.len() > 0 ==> metrics_error((key, value)) is None,
        key.len() == 0 ==> metrics_error((key, value)) is Some && metrics_error((key, value))->0.field
            == "map_key"@,
        key.len() > 0 && value.get("subbox_endpoint"@) is None ==> metrics_error((key, value)) is Some
            && metrics_error((key, value))->0.field == "subbox_endpoint"@,
        key.len() > 0 && has_text(value, "subbox_endpoint"@, a) && value.get("archive_id"@) is None
            ==> metrics_error((key, value)) is Some && metrics_error((key, value))->0.field
            == "archive_id"@,
        key.len() > 0 && has_text(value, "subbox_endpoint"@, a) && has_text(value, "archive_id"@, b)
            && value.get("repo_id"@) is None ==> metrics_error((key, value)) is Some
            && metrics_error((key, value))->0.field == "repo_id"@,
        metrics_error((key, value)) is Some ==> metrics_error((key, value))->0.section == "metrics"@
            && metrics_error((key, value))->0.entry_id == Some(key),
{
}

/// A proxy's first fault is named: the address that is none, the gRPC address that is none,
/// names that are no filled texts, or a flag that is no truth value.
pub proof fn proxies_have_their_first_fault(
    id: Seq<char>,
    proxy: JsonView,
    addresses: Map<Seq<char>, String>,
    ctx: FieldContext,
    listen: Seq<char>,
    raw: Seq<char>,
    names: Seq<JsonView>,
    i: int,
)
    requires
        id.len() > 0,
        has_text(proxy, "listen_address"@, listen),
    ensures
        ({
            let e = proxy_error(id, proxy, addresses, ctx);
            &&& !addresses.contains_key(listen) ==> e == Some(
                invalid(ctx, "listen_address"@, "socket address"@, Some(listen)),
            )
            &&& addresses.contains_key(listen) && proxy.get("grpc_listen_address"@) == Some(
                JsonView::Text(raw),
            ) && !addresses.contains_key(raw) ==> e == Some(
                invalid(ctx, "grpc_listen_address"@, "socket address"@, Some(raw)),
            )
            &&& addresses.contains_key(listen) && proxy.get("grpc_listen_address"@) == Some(
                JsonView::Bool(true),
            ) ==> e == Some(invalid(ctx, "grpc_listen_address"@, "socket address"@, None))
            &&& addresses.contains_key(listen) && proxy.get("grpc_listen_address"@) is None
                && proxy.get("subbox_endpoint"@) is None ==> e == Some(
                invalid(ctx, "subbox_endpoint"@, "non-empty string"@, None),
            )
        }),
        proxy.get("allowed_service_names"@) == Some(JsonView::Array(names)) && 0 <= i < names.len()
            && (!(names[i] is Text) || names[i]->Text_0.len() == 0) ==> names_error(proxy, ctx)
            == Some(invalid(ctx, "allowed_service_names"@, "array of non-empty strings"@, None)),
        proxy.get("allowed_service_names"@) == Some(JsonView::Bool(true)) ==> names_error(proxy, ctx)
            == Some(invalid(ctx, "allowed_service_names"@, "array of non-empty strings"@, None)),
        proxy.get("require_service_name"@) == Some(JsonView::Text(raw)) ==> bool_error(
            proxy,
            "require_service_name"@,
            ctx,
        ) == Some(invalid(ctx, "require_service_name"@, "boolean"@, None)),
{
    if proxy.get("allowed_service_names"@) == Some(JsonView::Array(names)) && 0 <= i < names.len()
        && (!(names[i] is Text) || names[i]->Text_0.len() == 0) {
        let items = proxy.get("allowed_service_names"@)->0->Array_0;
        assert(items == names);
        assert(items[i] == names[i]);
        assert(!crate::config::trace_proxy::names_service(items[i]));
        assert(names_error(proxy, ctx) is Some);
    }
}

/// A proxy lets through just the names that its entry lists, each once and in order.
pub proof fn proxies_let_listed_names_through(
    id: Seq<char>,
    proxy: JsonView,
    addresses: Map<Seq<char>, String>,
    c: TraceProxyStreamConfig,
    items: Seq<JsonView>,
    i: int,
    j: int,
)
    requires
        describes(id, proxy, addresses, c),
    ensures
        ({
            let allowed = strings(c.allowed_service_names@);
            let listed = proxy.get("allowed_service_names"@) == Some(JsonView::Array(items));
            &&& listed && 0 <= i < items.len() ==> allowed.contains(items[i]->Text_0)
            &&& listed && 0 <= i < allowed.len() ==> exists|k: int|
                0 <= k < items.len() && (#[trigger] items[k])->Text_0 == allowed[i]
            &&& 0 <= i < j < allowed.len() ==> lex_less(allowed[i], allowed[j])
            &&& proxy.get("allowed_service_names"@) is None ==> allowed.len() == 0
        }),
{
    let allowed = strings(c.allowed_service_names@);
    let names = listed_names(proxy);
    let key = |s: Seq<char>| name_key(s);
    if 0 <= i < names.len() {
        assert(crate::order::has_key_by(allowed, key(names[i]), key));
        let k = choose|k: int| 0 <= k < allowed.len() && key(#[trigger] allowed[k]) == key(names[i]);
        assert(allowed[k] == names[i]);
    }
    if 0 <= i < allowed.len() {
        assert(crate::order::is_first_by(names, allowed[i], key));
        let at = choose|at: int|
            #[trigger] crate::order::first_by(names, at, key) && names[at] == allowed[i];
        assert(names[at] == allowed[i]);
        if proxy.get("allowed_service_names"@) == Some(JsonView::Array(items)) {
            assert(items[at]->Text_0 == names[at]);
        }
    }
    if 0 <= i < j < allowed.len() {
        assert(crate::order::key_less(key(allowed[i]), key(allowed[j])));
    }
    if proxy.get("allowed_service_names"@) is None && allowed.len() > 0 {
        assert(crate::order::is_first_by(names, allowed[0], key));
        let at = choose|at: int|
            #[trigger] crate::order::first_by(names, at, key) && names[at] == allowed[0];
        assert(0 <= at < names.len());
    }
}

/// The numbers that tune the buffers stand in their section.
pub proof fn buffers_are_tuned_in_their_section(config: JsonView, section: JsonView, n: u64)
    ensures
        config.get("buffer"@) == Some(section) && section.get("cache_mb"@) == Some(
            JsonView::Unsigned(n),
        ) ==> buffer_number(config, "cache_mb"@) == Some(n),
        config.get("buffer"@) == Some(section) && section.get("ship_batch_max_mb"@) == Some(
            JsonView::Unsigned(n),
        ) ==> buffer_number(config, "ship_batch_max_mb"@) == Some(n),
        config.get("buffer"@) is None ==> buffer_number(config, "cache_mb"@) is None,
{
}

/// A report of all that there is says so, and no other does.
pub proof fn full_reports_say_so(entries: Seq<(Seq<char>, JsonView)>)
    ensures
        stamped(JsonView::Null, true) == JsonView::Object(
            seq![("full_report"@, JsonView::Bool(true))],
        ),
        stamped(JsonView::Null, false) == JsonView::Null,
        stamped(JsonView::Object(Seq::empty()), true) == JsonView::Object(
            seq![("full_report"@, JsonView::Bool(true))],
        ),
        stamped(JsonView::Object(entries), false) == JsonView::Object(entries),
{
    let none = Seq::<(Seq<char>, JsonView)>::empty();
    assert(crate::census_entries::with_entry(none, "full_report"@, JsonView::Bool(true)) =~= seq![
        ("full_report"@, JsonView::Bool(true)),
    ]);
}

/// A document is told from others by the digest of its compact text.
pub proof fn documents_are_told_by_their_text(value: JsonView)
    ensures
        checksum_of(value) == sha256_hex(json_bytes(value)),
{
}

// ---------------------------------------------------------------------------
// Directives
// ---------------------------------------------------------------------------

/// The strategies that name a channel are four.
pub proof fn channels_have_four_strategies(method: Seq<char>)
    ensures
        event_log_method(method) <==> method == "windows_event"@ || method == "windows_event_log"@
            || method == "event_log"@ || method == "eventlog"@,
{
}

/// Settings of several lines and formats have their part in a digest.
pub proof fn settings_have_their_part(m: MultilineView)
    ensures
        multiline_part(Some(m)) == m.start_pattern + seq!['|'] + decimal(m.max_lines as nat) + seq![
            '|',
        ] + decimal(m.timeout_secs as nat),
        multiline_part(None) == seq!['-'],
        FileSourceFormat::Plain.part() == "file"@,
        FileSourceFormat::DockerJson.part() == "docker-json"@,
        FileSourceFormat::KubernetesCri.part() == "k8s-cri"@,
{
    reveal_strlit("|");
    reveal_strlit("-");
    assert("|"@ =~= seq!['|'] && "-"@ =~= seq!['-']);
}

/// A diagnostic is of its directive, and says by which key the source was matched and how
/// long that lasts.
pub proof fn diagnostics_say_what_happened(
    r: ResolvedView,
    stream: CollectView,
    via: MatchVia,
    detail: Seq<char>,
    a: AdoptionView,
)
    ensures
        matched_diagnostic(stream, via).log_source_id == stream.log_source_id,
        matched_diagnostic(stream, via).status == MatchStatus::Matched,
        matched_diagnostic(stream, via).detail == "via "@ + via.name() + " ("@
            + via.durability().name() + seq![')'],
        missed(stream, detail).log_source_id == stream.log_source_id,
        missed(stream, detail).status == MatchStatus::NotFound,
        missed(stream, detail).detail == detail,
        diagnosed(r, missed(stream, detail)).diagnostics == r.diagnostics.push(
            missed(stream, detail),
        ),
        diagnosed(r, missed(stream, detail)).file_streams == r.file_streams,
        diagnosed(r, missed(stream, detail)).streaming_sources == r.streaming_sources,
        diagnosed(r, missed(stream, detail)).checkpoint_adoptions == r.checkpoint_adoptions,
        adopted(r, a).checkpoint_adoptions == r.checkpoint_adoptions.push(a),
        adopted(r, a).diagnostics == r.diagnostics,
        nothing_resolved().diagnostics.len() == 0,
        nothing_resolved().file_streams.len() == 0,
        nothing_resolved().streaming_sources.len() == 0,
        nothing_resolved().checkpoint_adoptions.len() == 0,
{
    reveal_strlit(")");
    assert(")"@ =~= seq![')']);
}

/// However a directive resolves, it gets one diagnostic, its own, and adds one source at
/// most.
pub proof fn every_directive_is_answered_once(
    before: ResolvedView,
    stream: CollectView,
    cache: CacheView,
    claimed: Seq<Seq<char>>,
    files: Set<Seq<char>>,
    after: ResolvedView,
)
    requires
        resolves_to(before, stream, cache, claimed, files, after),
    ensures
        after.diagnostics.len() == before.diagnostics.len() + 1,
        after.diagnostics.drop_last() == before.diagnostics,
        after.diagnostics.last().log_source_id == stream.log_source_id,
        after.file_streams.len() + after.streaming_sources.len() <= before.file_streams.len()
            + before.streaming_sources.len() + 1,
        after.checkpoint_adoptions == before.checkpoint_adoptions,
{
    assert(after.diagnostics.drop_last() =~= before.diagnostics);
}

/// Directives are resolved one after another, each with its own diagnostic, in order.
pub proof fn directives_are_answered_in_order(
    before: ResolvedView,
    streams: Seq<CollectView>,
    cache: CacheView,
    claimed: Seq<Seq<char>>,
    files: Set<Seq<char>>,
    after: ResolvedView,
    i: int,
)
    requires
        all_resolve_to(before, streams, cache, claimed, files, after),
    ensures
        after.diagnostics.len() == before.diagnostics.len() + streams.len(),
        0 <= i < before.diagnostics.len() ==> after.diagnostics[i] == before.diagnostics[i],
        0 <= i < streams.len() ==> after.diagnostics[before.diagnostics.len() + i].log_source_id
            == streams[i].log_source_id,
    decreases streams.len(),
{
    if streams.len() > 0 {
        let mid = choose|mid: ResolvedView|
            all_resolve_to(before, streams.drop_last(), cache, claimed, files, mid) && #[trigger]
            resolves_to(mid, streams.last(), cache, claimed, files, after);
        directives_are_answered_in_order(
            before,
            streams.drop_last(),
            cache,
            claimed,
            files,
            mid,
            i,
        );
        every_directive_is_answered_once(mid, streams.last(), cache, claimed, files, after);
        assert forall|k: int| 0 <= k < mid.diagnostics.len() implies #[trigger] after.diagnostics[k]
            == mid.diagnostics[k] by {
            assert(after.diagnostics.drop_last()[k] == after.diagnostics[k]);
        }
        if 0 <= i < streams.len() - 1 {
            assert(streams.drop_last()[i] == streams[i]);
        }
    }
}

/// The containers of a cache are told apart by their ids, and come in the order of their
/// instances and then of their ids.
pub proof fn containers_come_in_order(
    cs: Seq<ContainerView>,
    r: Seq<ContainerView>,
    i: int,
    j: int,
)
    requires
        distinct(cs, r),
    ensures
        0 <= i < j < r.len() ==> r[i].id != r[j].id,
        0 <= i < j < r.len() ==> lex_less(r[i].stable_instance_id(), r[j].stable_instance_id()) || (
        r[i].stable_instance_id() == r[j].stable_instance_id() && lex_less(r[i].id, r[j].id)),
        0 <= i < r.len() ==> cs.contains(r[i]),
        reachable(cs, i) ==> exists|k: int| 0 <= k < r.len() && (#[trigger] r[k]).id == cs[i].id,
        reachable(cs, i) && 0 <= j < r.len() && r[j].id == cs[i].id && i == cs.len() - 1 ==> r[j]
            == cs[i],
{
    if 0 <= i < j < r.len() {
        assert(r[i].id != r[j].id);
        assert(crate::order::key_less(
            crate::discovery::cache::instance_key(r[i]),
            crate::discovery::cache::instance_key(r[j]),
        ));
    }
    if 0 <= i < r.len() {
        assert(crate::discovery::cache::is_distinct(cs, r[i]));
        let at = choose|at: int|
            #[trigger] crate::discovery::cache::stands_for_id(cs, at) && cs[at] == r[i];
        assert(reachable(cs, at));
        let key = choose|key: Seq<char>|
            #[trigger] crate::discovery::cache::last_with_alias(cs, key, at);
        assert(0 <= at < cs.len());
        assert(cs[at] == r[i]);
    }
    if reachable(cs, i) {
        assert(crate::discovery::cache::has_id(r, cs[i].id));
        let k = choose|k: int| 0 <= k < r.len() && #[trigger] r[k].id == cs[i].id;
        assert(r[k].id == cs[i].id);
        if 0 <= j < r.len() && r[j].id == cs[i].id && i == cs.len() - 1 {
            assert(crate::discovery::cache::is_distinct(cs, r[j]));
            let at = choose|at: int|
                #[trigger] crate::discovery::cache::stands_for_id(cs, at) && cs[at] == r[j];
            assert(i <= at);
            let key = choose|key: Seq<char>|
                #[trigger] crate::discovery::cache::last_with_alias(cs, key, at);
            assert(at < cs.len());
        }
    }
}

/// The first description of a context that gives it a host decides; one that cannot be read
/// ends the search.
pub proof fn the_first_context_decides(
    before: Seq<Option<String>>,
    meta: String,
    after: Seq<Option<String>>,
    name: Seq<char>,
)
    requires
        forall|i: int|
            0 <= i < before.len() ==> (#[trigger] before[i]) is Some && host_in_meta(
                before[i]->0@,
                name,
            ) is None,
        host_in_meta(meta@, name) is Some,
    ensures
        first_host(before + seq![Some(meta)] + after, name) == host_in_meta(meta@, name),
        first_host(before + seq![None] + after, name) is None,
        first_host(before, name) is None,
    decreases before.len(),
{
    let all = before + seq![Some(meta)] + after;
    let cut = before + seq![None] + after;
    if before.len() > 0 {
        assert(all[0] == before[0] && cut[0] == before[0]);
        assert(all.skip(1) =~= before.skip(1) + seq![Some(meta)] + after);
        assert(cut.skip(1) =~= before.skip(1) + seq![None] + after);
        assert forall|i: int| 0 <= i < before.skip(1).len() implies (#[trigger] before.skip(1)[i])
            is Some && host_in_meta(before.skip(1)[i]->0@, name) is None by {
            assert(before.skip(1)[i] == before[i + 1]);
        }
        the_first_context_decides(before.skip(1), meta, after, name);
    } else {
        assert(all[0] == Some(meta) && cut[0] is None);
    }
}

// ---------------------------------------------------------------------------
// Texts of JSON
// ---------------------------------------------------------------------------

/// Spaces, tabs and the ends of lines in front are passed over, and nothing else is.
pub proof fn spaces_are_passed_over(white: Seq<u8>, rest: Seq<u8>)
    requires
        forall|i: int|
            0 <= i < white.len() ==> #[trigger] white[i] == 0x20 || white[i] == 0x09 || white[i]
                == 0x0a || white[i] == 0x0d,
        rest.len() == 0 || (rest[0] != 0x20 && rest[0] != 0x09 && rest[0] != 0x0a && rest[0]
            != 0x0d),
    ensures
        unspaced(white + rest) == rest,
    decreases white.len(),
{
    let all = white + rest;
    if white.len() > 0 {
        assert(all[0] == white[0]);
        assert(all.skip(1) =~= white.skip(1) + rest);
        assert forall|i: int| 0 <= i < white.skip(1).len() implies #[trigger] white.skip(1)[i]
            == 0x20 || white.skip(1)[i] == 0x09 || white.skip(1)[i] == 0x0a || white.skip(1)[i]
            == 0x0d by {
            assert(white.skip(1)[i] == white[i + 1]);
        }
        spaces_are_passed_over(white.skip(1), rest);
    } else {
        assert(all =~= rest);
    }
}

/// Whether a byte can begin a value: it is no space, comma, colon or closing bracket.
pub open spec fn begins_a_value(b: u8) -> bool {
    b != 0x20 && b != 0x09 && b != 0x0a && b != 0x0d && b != 0x2c && b != 0x3a && b != 0x5d && b
        != 0x7d
}

proof fn lemma_unspaced_stays(s: Seq<u8>)
    requires
        s.len() == 0 || (s[0] != 0x20 && s[0] != 0x09 && s[0] != 0x0a && s[0] != 0x0d),
    ensures
        unspaced(s) == s,
{
}

/// An array's values stand one after another with commas between them, up to its bracket.
pub proof fn arrays_hold_their_values(value: Seq<u8>, rest: Seq<u8>)
    requires
        value.len() > 0,
        begins_a_value(value[0]),
        json_value_end(value + rest) == Some(value.len()),
    ensures
        items_in(seq![0x5du8], true) == Some(Seq::<Seq<u8>>::empty()),
        items_in(seq![0x5du8], false) == Some(Seq::<Seq<u8>>::empty()),
        items_in(rest, false) is Some ==> items_in(value + rest, true) == Some(
            seq![value] + items_in(rest, false)->0,
        ),
        items_in(rest, false) is Some ==> items_in(seq![0x2cu8] + (value + rest), false) == Some(
            seq![value] + items_in(rest, false)->0,
        ),
        items_in(value + rest, false) is None,
        items_in(rest, false) is None ==> items_in(value + rest, true) is None,
{
    let s = value + rest;
    let c = seq![0x2cu8] + s;
    assert(s[0] == value[0]);
    assert(c[0] == 0x2cu8);
    assert(c.skip(1) =~= s);
    lemma_unspaced_stays(s);
    lemma_unspaced_stays(c);
    lemma_unspaced_stays(seq![0x5du8]);
    assert(value_len(s) == value.len());
    assert(s.take(value.len() as int) =~= value);
    assert(s.skip(value.len() as int) =~= rest);
}

/// An object's members stand one after another with commas between them, up to its brace:
/// each a text, a colon and a value.
pub proof fn objects_hold_their_members(
    key: Seq<u8>,
    name: Seq<char>,
    value: Seq<u8>,
    rest: Seq<u8>,
)
    requires
        key.len() > 0,
        key[0] == 0x22,
        value.len() > 0,
        begins_a_value(value[0]),
        json_string(key) == Some(name),
        json_value_end(key + (seq![0x3au8] + (value + rest))) == Some(key.len()),
        json_value_end(value + rest) == Some(value.len()),
    ensures
        members_in(seq![0x7du8], true) == Some(Seq::<(Seq<char>, Seq<u8>)>::empty()),
        members_in(rest, false) is Some ==> members_in(
            key + (seq![0x3au8] + (value + rest)),
            true,
        ) == Some(seq![(name, value)] + members_in(rest, false)->0),
        members_in(rest, false) is Some ==> members_in(
            seq![0x2cu8] + (key + (seq![0x3au8] + (value + rest))),
            false,
        ) == Some(seq![(name, value)] + members_in(rest, false)->0),
        members_in(rest, false) is None ==> members_in(
            key + (seq![0x3au8] + (value + rest)),
            true,
        ) is None,
{
    let w = value + rest;
    let v = seq![0x3au8] + w;
    let u = key + v;
    let c = seq![0x2cu8] + u;
    assert(u[0] == 0x22 && c[0] == 0x2cu8 && v[0] == 0x3au8 && w[0] == value[0]);
    lemma_unspaced_stays(u);
    lemma_unspaced_stays(c);
    lemma_unspaced_stays(v);
    lemma_unspaced_stays(w);
    lemma_unspaced_stays(seq![0x7du8]);
    assert(c.skip(1) =~= u);
    assert(value_len(u) == key.len());
    assert(u.take(key.len() as int) =~= key);
    assert(u.skip(key.len() as int) =~= v);
    assert(v.skip(1) =~= w);
    assert(value_len(w) == value.len());
    assert(w.take(value.len() as int) =~= value);
    assert(w.skip(value.len() as int) =~= rest);
    assert(crate::outline::member_at(u) == Some((name, value, rest)));
}

/// A text says what its one value is: null, a text, the values of an array or the members
/// of an object, looked into one level less each.
pub proof fn texts_say_their_value(raw: Seq<u8>, depth: nat, i: int)
    requires
        raw.len() > 0,
        begins_a_value(raw[0]),
        json_value_end(raw) == Some(raw.len()),
    ensures
        raw == seq![0x6eu8, 0x75u8, 0x6cu8, 0x6cu8] ==> outlined(raw, depth) is Null,
        raw[0] == 0x22 && json_string(raw) is Some ==> outlined(raw, depth) == OutlineView::Text(
            json_string(raw)->0,
        ),
        raw[0] == 0x5b && depth > 0 && items_in(raw.skip(1), true) is Some ==> {
            let items = items_in(raw.skip(1), true)->0;
            &&& outlined(raw, depth) is Items
            &&& outlined(raw, depth)->Items_0.len() == items.len()
            &&& 0 <= i < items.len() ==> outlined(raw, depth)->Items_0[i] == outlined(
                items[i],
                (depth - 1) as nat,
            )
        },
        raw[0] == 0x7b && depth > 0 && members_in(raw.skip(1), true) is Some ==> {
            let members = members_in(raw.skip(1), true)->0;
            &&& outlined(raw, depth) is Members
            &&& outlined(raw, depth)->Members_0.len() == members.len()
            &&& 0 <= i < members.len() ==> outlined(raw, depth)->Members_0[i] == (
                members[i].0,
                outlined(members[i].1, (depth - 1) as nat),
            )
        },
        depth == 0 && (raw[0] == 0x5b || raw[0] == 0x7b) ==> outlined(raw, depth) is Other,
{
    lemma_unspaced_stays(raw);
    assert(value_len(raw) == raw.len());
    assert(raw.take(raw.len() as int) =~= raw);
    assert(raw.skip(raw.len() as int) =~= Seq::<u8>::empty());
    let null = seq![0x6eu8, 0x75u8, 0x6cu8, 0x6cu8];
    assert(crate::outline::null_text() =~= null);
    assert(null[0] == 0x6e);
}

/// A record's fields stand by name in an object, or by place in an array with a value for
/// each.
pub proof fn records_can_be_arrays(items: Seq<OutlineView>, fields: Seq<Seq<char>>, k: int)
    ensures
        OutlineView::Items(items).is_record(fields) <==> items.len() == fields.len(),
        0 <= k < items.len() ==> OutlineView::Items(items).field(fields, k) == Some(items[k]),
        !OutlineView::Null.is_record(fields),
        !OutlineView::Other.is_record(fields),
{
}

} // verus!
