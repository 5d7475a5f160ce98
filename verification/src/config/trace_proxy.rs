//! Trace proxies.
use vstd::prelude::*;
use vstd::string::*;
use vstd::utf8::encode_utf8;

use crate::config::fields::{
    bool_or, empty_key, error_views, filled_field, invalid, not_filled, required_config_key_result,
    required_config_string_result, required_string_field_result, text_field, ArchiveId,
    ConfigFieldError, ConfigParseReport, ErrorView, FieldContext, RepoId, TraceProxyId,
    WireEndpoint,
};
use crate::config::hash::{append_hash_field, fields_hash, hash_fields, lemma_next_field};
use crate::config::unified::UnifiedConfig;
use crate::digest::{is_digest_text, text_sha256_hex};
use crate::json::{entry_views, views, Json, JsonView};
use crate::order::{name_key, sorted_texts, sorted_unique_by};
use crate::strmap::StrMap;
use crate::text::{decimal, decimal_of, opt_str_view, opt_view, strings};

verus! {

/// A trace proxy.
#[derive(Debug, PartialEq, Eq)]
pub struct TraceProxyStreamConfig {
    /// The id of the proxy.
    pub log_source_id: String,
    pub listen_address: String,
    /// Where OTLP over gRPC is listened for, if it is.
    pub grpc_listen_address: Option<String>,
    pub subbox_endpoint: String,
    pub archive_id: String,
    pub repo_id: String,
    pub require_service_name: bool,
    /// The names of the services that are let through, sorted, each once.
    pub allowed_service_names: Vec<String>,
    /// A digest of all that the proxy has to be restarted for.
    pub config_hash: String,
}

// ---------------------------------------------------------------------------
// Hashes
// ---------------------------------------------------------------------------

/// All that a proxy has to be restarted for. Without a gRPC listener its field
/// is empty, which no address is.
pub open spec fn restart_fields(
    listen_address: Seq<char>,
    grpc_listen_address: Option<Seq<char>>,
    subbox_endpoint: Seq<char>,
    archive_id: Seq<char>,
    repo_id: Seq<char>,
    require_service_name: bool,
    allowed: Seq<Seq<char>>,
) -> Seq<Seq<char>> {
    seq![
        listen_address,
        match grpc_listen_address {
            Some(a) => a,
            None => ""@,
        },
        subbox_endpoint,
        archive_id,
        repo_id,
        if require_service_name {
            "true"@
        } else {
            "false"@
        },
        decimal(allowed.len()),
    ] + allowed
}

impl TraceProxyStreamConfig {
    /// The digest of all that the proxy has to be restarted for.
    pub fn compute_hash(
        listen_address: &str,
        grpc_listen_address: Option<&str>,
        subbox_endpoint: &str,
        archive_id: &str,
        repo_id: &str,
        require_service_name: bool,
        allowed_service_names: &Vec<String>,
    ) -> (r: String)
        ensures
            r@ == fields_hash(
                restart_fields(
                    listen_address@,
                    opt_str_view(grpc_listen_address),
                    subbox_endpoint@,
                    archive_id@,
                    repo_id@,
                    require_service_name,
                    strings(allowed_service_names@),
                ),
            ),
            is_digest_text(r@),
    {
        let ghost fields = restart_fields(
            listen_address@,
            opt_str_view(grpc_listen_address),
            subbox_endpoint@,
            archive_id@,
            repo_id@,
            require_service_name,
            strings(allowed_service_names@),
        );
        let mut input = String::new();
        let grpc = match grpc_listen_address {
            Some(a) => a,
            None => "",
        };
        let require = if require_service_name {
            "true"
        } else {
            "false"
        };
        let count = decimal_of(allowed_service_names.len() as u64);
        assert(input@ =~= hash_fields(fields.take(0)));
        append_hash_field(&mut input, listen_address);
        proof {
            lemma_next_field(fields, 0);
        }
        append_hash_field(&mut input, grpc);
        proof {
            lemma_next_field(fields, 1);
        }
        append_hash_field(&mut input, subbox_endpoint);
        proof {
            lemma_next_field(fields, 2);
        }
        append_hash_field(&mut input, archive_id);
        proof {
            lemma_next_field(fields, 3);
        }
        append_hash_field(&mut input, repo_id);
        proof {
            lemma_next_field(fields, 4);
        }
        append_hash_field(&mut input, require);
        proof {
            lemma_next_field(fields, 5);
        }
        append_hash_field(&mut input, count.as_str());
        proof {
            lemma_next_field(fields, 6);
        }
        let mut i: usize = 0;
        while i < allowed_service_names.len()
            invariant
                i <= allowed_service_names@.len(),
                fields.len() == 7 + allowed_service_names@.len(),
                forall|j: int|
                    0 <= j < allowed_service_names@.len() ==> #[trigger] fields[7 + j]
                        == allowed_service_names@[j]@,
                input@ == hash_fields(fields.take(7 + i)),
            decreases allowed_service_names.len() - i,
        {
            append_hash_field(&mut input, allowed_service_names[i].as_str());
            proof {
                assert(fields[7 + i as int] == allowed_service_names@[i as int]@);
                lemma_next_field(fields, 7 + i);
            }
            i = i + 1;
        }
        assert(fields.take(7 + i) =~= fields);
        text_sha256_hex(input.as_str())
    }
}

// ---------------------------------------------------------------------------
// Reading proxies
// ---------------------------------------------------------------------------

/// The socket address that a text writes, as it is written back, if it is one.
/// `addresses` holds the texts that are.
pub open spec fn address_in(addresses: Map<Seq<char>, String>, raw: Seq<char>) -> Option<Seq<char>> {
    if addresses.contains_key(raw) {
        Some(addresses[raw]@)
    } else {
        None
    }
}

/// What is wrong with a gRPC address that is there, if something is.
pub open spec fn grpc_error(
    proxy: JsonView,
    addresses: Map<Seq<char>, String>,
    ctx: FieldContext,
) -> Option<ErrorView> {
    let field = "grpc_listen_address"@;
    match proxy.get(field) {
        None => None,
        Some(JsonView::Text(raw)) => if addresses.contains_key(raw) {
            None
        } else {
            Some(invalid(ctx, field, "socket address"@, Some(raw)))
        },
        Some(_) => Some(invalid(ctx, field, "socket address"@, None)),
    }
}

/// Whether an item names a service.
pub open spec fn names_service(item: JsonView) -> bool {
    item is Text && item->Text_0.len() > 0
}

/// The names that are let through, as they are listed; none where there is no
/// list of filled texts.
pub open spec fn listed_names(proxy: JsonView) -> Seq<Seq<char>> {
    match proxy.get("allowed_service_names"@) {
        Some(JsonView::Array(items)) => items.map_values(|item: JsonView| item->Text_0),
        _ => seq![],
    }
}

/// What is wrong with the list of names, if something is.
pub open spec fn names_error(proxy: JsonView, ctx: FieldContext) -> Option<ErrorView> {
    let field = "allowed_service_names"@;
    let error = Some(invalid(ctx, field, "array of non-empty strings"@, None));
    match proxy.get(field) {
        None => None,
        Some(JsonView::Array(items)) => if forall|i: int|
            0 <= i < items.len() ==> names_service(#[trigger] items[i]) {
            None
        } else {
            error
        },
        Some(_) => error,
    }
}

/// What is wrong with a truth value that is there, if something is.
pub open spec fn bool_error(value: JsonView, field: Seq<char>, ctx: FieldContext) -> Option<
    ErrorView,
> {
    match value.get(field) {
        None => None,
        Some(JsonView::Bool(_)) => None,
        Some(_) => Some(invalid(ctx, field, "boolean"@, None)),
    }
}

/// The first thing that is wrong with an entry, if something is.
pub open spec fn proxy_error(
    id: Seq<char>,
    proxy: JsonView,
    addresses: Map<Seq<char>, String>,
    ctx: FieldContext,
) -> Option<ErrorView> {
    let address = filled_field(proxy, "listen_address"@);
    if id.len() == 0 {
        Some(empty_key(ctx))
    } else if address is None {
        Some(not_filled(proxy, "listen_address"@, ctx))
    } else if !addresses.contains_key(address->0) {
        Some(invalid(ctx, "listen_address"@, "socket address"@, address))
    } else if grpc_error(proxy, addresses, ctx) is Some {
        grpc_error(proxy, addresses, ctx)
    } else if filled_field(proxy, "subbox_endpoint"@) is None {
        Some(not_filled(proxy, "subbox_endpoint"@, ctx))
    } else if filled_field(proxy, "archive_id"@) is None {
        Some(not_filled(proxy, "archive_id"@, ctx))
    } else if filled_field(proxy, "repo_id"@) is None {
        Some(not_filled(proxy, "repo_id"@, ctx))
    } else if names_error(proxy, ctx) is Some {
        names_error(proxy, ctx)
    } else {
        bool_error(proxy, "require_service_name"@, ctx)
    }
}

/// Whether a proxy is the one that an entry describes.
pub open spec fn describes(
    id: Seq<char>,
    proxy: JsonView,
    addresses: Map<Seq<char>, String>,
    c: TraceProxyStreamConfig,
) -> bool {
    let grpc = match text_field(proxy, "grpc_listen_address"@) {
        Some(raw) => address_in(addresses, raw),
        None => None,
    };
    let allowed = strings(c.allowed_service_names@);
    let raw_address = filled_field(proxy, "listen_address"@)->0;
    &&& c.log_source_id@ == id
    &&& Some(c.listen_address@) == address_in(addresses, raw_address)
    &&& opt_view(c.grpc_listen_address) == grpc
    &&& Some(c.subbox_endpoint@) == filled_field(proxy, "subbox_endpoint"@)
    &&& Some(c.archive_id@) == filled_field(proxy, "archive_id"@)
    &&& Some(c.repo_id@) == filled_field(proxy, "repo_id"@)
    &&& sorted_unique_by(listed_names(proxy), allowed, |s: Seq<char>| name_key(s))
    &&& c.require_service_name == (bool_or(proxy, "require_service_name"@, false) || allowed.len()
        > 0)
    &&& c.config_hash@ == fields_hash(
        restart_fields(
            raw_address,
            grpc,
            c.subbox_endpoint@,
            c.archive_id@,
            c.repo_id@,
            c.require_service_name,
            allowed,
        ),
    )
}

fn optional_listen_address(
    proxy: &Json,
    addresses: &StrMap<String>,
    ctx: FieldContext<'_>,
) -> (r: Result<Option<String>, ConfigFieldError>)
    ensures
        match r {
            Ok(a) => grpc_error(proxy@, addresses@, ctx) is None && opt_view(a) == match text_field(
                proxy@,
                "grpc_listen_address"@,
            ) {
                Some(raw) => address_in(addresses@, raw),
                None => None,
            },
            Err(e) => grpc_error(proxy@, addresses@, ctx) == Some(e@),
        },
{
    let value = match proxy.get("grpc_listen_address") {
        Some(value) => value,
        None => {
            return Ok(None);
        },
    };
    let raw = match value.as_str() {
        Some(raw) => raw,
        None => {
            return Err(
                ConfigFieldError::invalid_field(ctx, "grpc_listen_address", "socket address"),
            );
        },
    };
    match addresses.get(raw) {
        Some(address) => Ok(Some(address.clone())),
        None => Err(
            ConfigFieldError::invalid_field_value(
                ctx,
                "grpc_listen_address",
                "socket address",
                raw.to_owned(),
            ),
        ),
    }
}

fn allowed_service_names(proxy: &Json, ctx: FieldContext<'_>) -> (r: Result<
    Vec<String>,
    ConfigFieldError,
>)
    ensures
        match r {
            Ok(names) => names_error(proxy@, ctx) is None && sorted_unique_by(
                listed_names(proxy@),
                strings(names@),
                |s: Seq<char>| name_key(s),
            ),
            Err(e) => names_error(proxy@, ctx) == Some(e@),
        },
{
    let mut names: Vec<String> = Vec::new();
    let value = match proxy.get("allowed_service_names") {
        Some(value) => value,
        None => {
            assert(strings(names@) =~= listed_names(proxy@));
            return Ok(sorted_texts(names));
        },
    };
    let items = match value.as_array() {
        Some(items) => items,
        None => {
            return Err(
                ConfigFieldError::invalid_field(
                    ctx,
                    "allowed_service_names",
                    "array of non-empty strings",
                ),
            );
        },
    };
    let ghost vs = views(items@);
    let ghost all = listed_names(proxy@);
    let mut i: usize = 0;
    assert(strings(names@) =~= all.take(0));
    while i < items.len()
        invariant
            i <= items@.len(),
            vs == views(items@),
            proxy@.get("allowed_service_names"@) == Some(JsonView::Array(vs)),
            all == listed_names(proxy@),
            all.len() == vs.len(),
            strings(names@) == all.take(i as int),
            forall|j: int| 0 <= j < i ==> names_service(#[trigger] vs[j]),
        decreases items.len() - i,
    {
        assert(vs[i as int] == items@[i as int]@);
        let name = match items[i].as_str() {
            Some(name) => name,
            None => "",
        };
        if name.is_empty() {
            proof {
                reveal_strlit("");
                assert(!names_service(vs[i as int]));
            }
            return Err(
                ConfigFieldError::invalid_field(
                    ctx,
                    "allowed_service_names",
                    "array of non-empty strings",
                ),
            );
        }
        proof {
            reveal_strlit("");
            assert(all[i as int] == name@);
        }
        let ghost before = strings(names@);
        names.push(name.to_owned());
        assert(strings(names@) =~= before.push(name@));
        i = i + 1;
        assert(all.take(i as int) =~= all.take(i - 1).push(all[i - 1]));
    }
    assert(all.take(i as int) =~= all);
    Ok(sorted_texts(names))
}

/// The proxy that an entry describes, or the first thing that is wrong with it.
/// `addresses` holds the texts that are socket addresses, with the address as it
/// is written back.
pub fn trace_proxy_from_entry(
    log_source_id: &str,
    proxy: &Json,
    addresses: &StrMap<String>,
) -> (r: Result<TraceProxyStreamConfig, ConfigFieldError>)
    ensures
        ({
            let ctx = FieldContext { section: "traces", entry_id: Some(log_source_id) };
            match r {
                Ok(c) => proxy_error(log_source_id@, proxy@, addresses@, ctx) is None && describes(
                    log_source_id@,
                    proxy@,
                    addresses@,
                    c,
                ),
                Err(e) => proxy_error(log_source_id@, proxy@, addresses@, ctx) == Some(e@),
            }
        }),
{
    let ctx = FieldContext::entry("traces", log_source_id);
    let id = match required_config_key_result::<TraceProxyId>(log_source_id, ctx) {
        Ok(id) => id.0,
        Err(e) => {
            return Err(e);
        },
    };
    let raw_address = match required_string_field_result(proxy, "listen_address", ctx) {
        Ok(s) => s,
        Err(e) => {
            return Err(e);
        },
    };
    let listen_address = match addresses.get(raw_address.as_str()) {
        Some(address) => address.clone(),
        None => {
            return Err(
                ConfigFieldError::invalid_field_value(
                    ctx,
                    "listen_address",
                    "socket address",
                    raw_address,
                ),
            );
        },
    };
    let grpc_listen_address = match optional_listen_address(proxy, addresses, ctx) {
        Ok(a) => a,
        Err(e) => {
            return Err(e);
        },
    };
    let subbox_endpoint = match required_config_string_result::<WireEndpoint>(
        proxy,
        "subbox_endpoint",
        ctx,
    ) {
        Ok(v) => v.0,
        Err(e) => {
            return Err(e);
        },
    };
    let archive_id = match required_config_string_result::<ArchiveId>(proxy, "archive_id", ctx) {
        Ok(v) => v.0,
        Err(e) => {
            return Err(e);
        },
    };
    let repo_id = match required_config_string_result::<RepoId>(proxy, "repo_id", ctx) {
        Ok(v) => v.0,
        Err(e) => {
            return Err(e);
        },
    };
    let allowed = match allowed_service_names(proxy, ctx) {
        Ok(names) => names,
        Err(e) => {
            return Err(e);
        },
    };
    let required = match proxy.get("require_service_name") {
        None => false,
        Some(value) => match value.as_bool() {
            Some(b) => b,
            None => {
                return Err(ConfigFieldError::invalid_field(ctx, "require_service_name", "boolean"));
            },
        },
    };
    let require_service_name = required || allowed.len() > 0;
    let grpc_text = match &grpc_listen_address {
        Some(a) => Some(a.as_str()),
        None => None,
    };
    let config_hash = TraceProxyStreamConfig::compute_hash(
        raw_address.as_str(),
        grpc_text,
        subbox_endpoint.as_str(),
        archive_id.as_str(),
        repo_id.as_str(),
        require_service_name,
        &allowed,
    );
    Ok(
        TraceProxyStreamConfig {
            log_source_id: id,
            listen_address,
            grpc_listen_address,
            subbox_endpoint,
            archive_id,
            repo_id,
            require_service_name,
            allowed_service_names: allowed,
            config_hash,
        },
    )
}

/// The error of one entry of the section.
pub open spec fn entry_error(entry: (Seq<char>, JsonView), addresses: Map<Seq<char>, String>) -> Option<
    ErrorView,
> {
    let key_error = |e: ErrorView| ErrorView { entry_id: Some(entry.0), ..e };
    match proxy_error(
        entry.0,
        entry.1,
        addresses,
        FieldContext { section: "traces", entry_id: None },
    ) {
        Some(e) => Some(key_error(e)),
        None => None,
    }
}

/// The entries of the section of traces.
pub open spec fn proxy_entries(config: JsonView) -> Seq<(Seq<char>, JsonView)> {
    match config.get("traces"@) {
        Some(JsonView::Object(entries)) => entries,
        _ => seq![],
    }
}

/// The entries that describe a proxy.
pub open spec fn good_entries(
    entries: Seq<(Seq<char>, JsonView)>,
    addresses: Map<Seq<char>, String>,
) -> Seq<(Seq<char>, JsonView)> {
    crate::seqs::kept(
        entries,
        |entry: (Seq<char>, JsonView)|
            if entry_error(entry, addresses) is None {
                Some(entry)
            } else {
                None
            },
    )
}

/// The errors of the entries that do not.
pub open spec fn bad_entries(
    entries: Seq<(Seq<char>, JsonView)>,
    addresses: Map<Seq<char>, String>,
) -> Seq<ErrorView> {
    crate::seqs::kept(entries, |entry: (Seq<char>, JsonView)| entry_error(entry, addresses))
}

proof fn lemma_entry_error(
    id: &str,
    proxy: JsonView,
    addresses: Map<Seq<char>, String>,
)
    ensures
        entry_error((id@, proxy), addresses) == proxy_error(
            id@,
            proxy,
            addresses,
            FieldContext { section: "traces", entry_id: Some(id) },
        ),
{
    let bare = FieldContext { section: "traces", entry_id: None };
    let full = FieldContext { section: "traces", entry_id: Some(id) };
    if let Some(e) = proxy_error(id@, proxy, addresses, bare) {
        assert(ErrorView { entry_id: Some(id@), ..e } =~= proxy_error(id@, proxy, addresses, full)->0);
    }
}

/// The trace proxies of a configuration, and the errors of the entries that
/// describe none.
pub fn all_trace_proxies_with_diagnostics(config: &UnifiedConfig, addresses: &StrMap<String>) -> (r:
    ConfigParseReport<TraceProxyStreamConfig>)
    ensures
        ({
            let good = good_entries(proxy_entries(config.raw@), addresses@);
            &&& r.values@.len() == good.len()
            &&& forall|i: int|
                0 <= i < good.len() ==> describes(
                    (#[trigger] good[i]).0,
                    good[i].1,
                    addresses@,
                    r.values@[i],
                )
            &&& error_views(r.errors@) == bad_entries(proxy_entries(config.raw@), addresses@)
        }),
{
    let mut report: ConfigParseReport<TraceProxyStreamConfig> = ConfigParseReport::default();
    assert(error_views(report.errors@) =~= seq![]);
    let entries = match config.section("traces") {
        Some(v) => match v.as_object() {
            Some(entries) => entries,
            None => {
                return report;
            },
        },
        None => {
            return report;
        },
    };
    let ghost rows = entry_views(entries@);
    let ghost good_of = |entry: (Seq<char>, JsonView)|
        if entry_error(entry, addresses@) is None {
            Some(entry)
        } else {
            None
        };
    let ghost bad_of = |entry: (Seq<char>, JsonView)| entry_error(entry, addresses@);
    let mut i: usize = 0;
    assert(crate::seqs::kept(rows.take(0), good_of).len() == 0);
    assert(error_views(report.errors@) =~= crate::seqs::kept(rows.take(0), bad_of));
    while i < entries.len()
        invariant
            i <= entries@.len(),
            rows == entry_views(entries@),
            rows == proxy_entries(config.raw@),
            good_of == (|entry: (Seq<char>, JsonView)|
                if entry_error(entry, addresses@) is None {
                    Some(entry)
                } else {
                    None
                }),
            bad_of == (|entry: (Seq<char>, JsonView)| entry_error(entry, addresses@)),
            ({
                let good = crate::seqs::kept(rows.take(i as int), good_of);
                &&& report.values@.len() == good.len()
                &&& forall|j: int|
                    0 <= j < good.len() ==> describes(
                        (#[trigger] good[j]).0,
                        good[j].1,
                        addresses@,
                        report.values@[j],
                    )
            }),
            error_views(report.errors@) == crate::seqs::kept(rows.take(i as int), bad_of),
        decreases entries.len() - i,
    {
        proof {
            crate::seqs::lemma_kept_step(rows, good_of, i as int);
            crate::seqs::lemma_kept_step(rows, bad_of, i as int);
            assert(rows[i as int] == (entries@[i as int].0@, entries@[i as int].1@));
        }
        let ghost before = error_views(report.errors@);
        let ghost values_before = report.values@;
        let key = entries[i].0.as_str();
        proof {
            lemma_entry_error(key, entries@[i as int].1@, addresses@);
        }
        match trace_proxy_from_entry(key, &entries[i].1, addresses) {
            Ok(c) => {
                report.values.push(c);
                assert(forall|j: int|
                    0 <= j < values_before.len() ==> report.values@[j] == values_before[j]);
            },
            Err(e) => {
                report.record_error(e);
                assert(error_views(report.errors@) =~= before.push(e@));
            },
        }
        i = i + 1;
    }
    assert(rows.take(i as int) =~= rows);
    report
}

/// The trace proxies of a configuration. An entry that describes none is passed
/// over.
pub fn all_trace_proxies(config: &UnifiedConfig, addresses: &StrMap<String>) -> (r: Vec<
    TraceProxyStreamConfig,
>)
    ensures
        ({
            let good = good_entries(proxy_entries(config.raw@), addresses@);
            &&& r@.len() == good.len()
            &&& forall|i: int|
                0 <= i < good.len() ==> describes(
                    (#[trigger] good[i]).0,
                    good[i].1,
                    addresses@,
                    r@[i],
                )
        }),
{
    all_trace_proxies_with_diagnostics(config, addresses).into_values()
}

/// The texts of a configuration that have to be read as socket addresses.
pub fn listen_address_texts(config: &UnifiedConfig) -> (r: Vec<String>)
    ensures
        forall|i: int, field: Seq<char>|
            0 <= i < proxy_entries(config.raw@).len() && (field == "listen_address"@ || field
                == "grpc_listen_address"@) && #[trigger] text_field(
                proxy_entries(config.raw@)[i].1,
                field,
            ) is Some ==> strings(r@).contains(
                text_field(proxy_entries(config.raw@)[i].1, field)->0,
            ),
{
    let mut out: Vec<String> = Vec::new();
    let entries = match config.section("traces") {
        Some(v) => match v.as_object() {
            Some(entries) => entries,
            None => {
                return out;
            },
        },
        None => {
            return out;
        },
    };
    let ghost rows = entry_views(entries@);
    let mut i: usize = 0;
    while i < entries.len()
        invariant
            i <= entries@.len(),
            rows == entry_views(entries@),
            rows == proxy_entries(config.raw@),
            forall|j: int, field: Seq<char>|
                0 <= j < i && (field == "listen_address"@ || field == "grpc_listen_address"@)
                    && #[trigger] text_field(rows[j].1, field) is Some ==> strings(out@).contains(
                    text_field(rows[j].1, field)->0,
                ),
        decreases entries.len() - i,
    {
        assert(rows[i as int] == (entries@[i as int].0@, entries@[i as int].1@));
        let ghost before = strings(out@);
        add_text(&mut out, &entries[i].1, "listen_address");
        add_text(&mut out, &entries[i].1, "grpc_listen_address");
        i = i + 1;
    }
    out
}

fn add_text(out: &mut Vec<String>, value: &Json, field: &str)
    ensures
        forall|s: Seq<char>|
            strings(old(out)@).contains(s) ==> #[trigger] strings(final(out)@).contains(s),
        text_field(value@, field@) is Some ==> strings(final(out)@).contains(
            text_field(value@, field@)->0,
        ),
{
    if let Some(v) = value.get(field) {
        if let Some(raw) = v.as_str() {
            let ghost before = strings(out@);
            out.push(raw.to_owned());
            proof {
                let after = strings(out@);
                assert(after =~= before.push(raw@));
                assert(after[before.len() as int] == raw@);
                assert forall|s: Seq<char>| before.contains(s) implies #[trigger] after.contains(
                    s,
                ) by {
                    let k = choose|k: int| 0 <= k < before.len() && before[k] == s;
                    assert(after[k] == s);
                }
            }
        }
    }
}

} // verus!
