//! What is read out of a configuration, said of the fields that stand in it.
use vstd::prelude::*;
use vstd::string::*;

use crate::common::url_error;
use crate::config::app::{app_error, host_mode_of, token_of, AppConfigError, Cli};
use crate::config::cadence::{config_secs, config_send_stats};
use crate::config::ebpf::{reads_section, target_of, EbpfSectionConfig};
use crate::config::fields::{
    bool_or, filled_field, number_field, port_in_item, port_in_text, ports_in, positive_or,
    texts_in, u32_or, FieldContext,
};
use crate::config::metrics::{metrics_error, metrics_stream};
use crate::config::telemetry::telemetry_of;
use crate::config::trace_proxy::{describes, proxy_error, restart_fields, TraceProxyStreamConfig};
use crate::json::JsonView;
use crate::laws::docker::{keeping_goes_item_by_item, keeping_one_item};
use crate::laws::text::splitting_undoes_joining;
use crate::seqs::kept;
use crate::text::{ascii_lowered, split, strings, trimmed};

verus! {

/// Whether a field of an object holds a text that is not empty.
pub open spec fn has_text(value: JsonView, field: Seq<char>, text: Seq<char>) -> bool {
    value.get(field) == Some(JsonView::Text(text)) && text.len() > 0
}

/// What stands under a key of an object is the value of its first entry with that key.
pub proof fn keys_lead_to_their_values(
    before: Seq<(Seq<char>, JsonView)>,
    key: Seq<char>,
    value: JsonView,
    after: Seq<(Seq<char>, JsonView)>,
)
    requires
        forall|i: int| 0 <= i < before.len() ==> (#[trigger] before[i]).0 != key,
    ensures
        JsonView::Object(before + seq![(key, value)] + after).get(key) == Some(value),
        JsonView::Object(before).get(key) is None,
{
    let all = before + seq![(key, value)] + after;
    assert forall|i: int| 0 <= i < before.len() implies (#[trigger] all[i]).0 != key by {
        assert(all[i] == before[i]);
    }
    assert(all[before.len() as int] == (key, value));
    crate::json::lemma_key_place_at(all, key, before.len() as int);
    crate::json::lemma_key_place_at(before, key, before.len() as int);
}

/// A required text is there just if the field holds a text that is not empty.
pub proof fn required_texts_are_filled(value: JsonView, field: Seq<char>, text: Seq<char>)
    ensures
        filled_field(value, field) == Some(text) <==> has_text(value, field, text),
        filled_field(value, field) is None <==> !(value.get(field) is Some && value.get(
            field,
        )->0 is Text && value.get(field)->0->Text_0.len() > 0),
{
}

/// Numbers and truth values are taken as they stand, and else fall back: a positive one
/// also where it is zero, one of 32 bits also where it is larger.
pub proof fn fields_fall_back(
    value: JsonView,
    field: Seq<char>,
    n: u64,
    fallback: u64,
    small: u32,
    flag: bool,
)
    ensures
        value.get(field) == Some(JsonView::Unsigned(n)) ==> {
            &&& number_field(value, field) == Some(n)
            &&& n > 0 ==> positive_or(value, field, fallback) == n
            &&& n == 0 ==> positive_or(value, field, fallback) == fallback
            &&& n < 0x1_0000_0000 ==> u32_or(value, field, small) == n
            &&& n >= 0x1_0000_0000 ==> u32_or(value, field, small) == small
        },
        !(value.get(field) is Some && value.get(field)->0 is Unsigned) ==> {
            &&& number_field(value, field) is None
            &&& positive_or(value, field, fallback) == fallback
            &&& u32_or(value, field, small) == small
        },
        value.get(field) == Some(JsonView::Bool(true)) ==> bool_or(value, field, flag),
        value.get(field) == Some(JsonView::Bool(false)) ==> !bool_or(value, field, flag),
        !(value.get(field) is Some && value.get(field)->0 is Bool) ==> bool_or(value, field, flag)
            == flag,
{
}

/// A list of ports in text is read part by part between its commas, and one in an array
/// item by item; what is no port is passed over.
pub proof fn ports_are_read_one_by_one(
    part: Seq<char>,
    rest: Seq<char>,
    items: Seq<JsonView>,
    item: JsonView,
    n: u64,
)
    requires
        forall|i: int| 0 <= i < part.len() ==> #[trigger] part[i] != ',',
    ensures
        ({
            let one = match crate::text::parsed(trimmed(part), 10, 65535) {
                Some(p) => seq![p as u16],
                None => Seq::<u16>::empty(),
            };
            &&& ports_in(Some(JsonView::Text(part))) == one
            &&& ports_in(Some(JsonView::Text(part + seq![','] + rest))) == one + ports_in(
                Some(JsonView::Text(rest)),
            )
        }),
        ports_in(Some(JsonView::Array(items.push(JsonView::Unsigned(n))))) == if n <= 65535 {
            ports_in(Some(JsonView::Array(items))).push(n as u16)
        } else {
            ports_in(Some(JsonView::Array(items)))
        },
        !(item is Unsigned) ==> ports_in(Some(JsonView::Array(items.push(item)))) == ports_in(
            Some(JsonView::Array(items)),
        ),
        ports_in(Some(JsonView::Array(Seq::<JsonView>::empty()))) == Seq::<u16>::empty(),
        ports_in(None) == Seq::<u16>::empty(),
{
    let f = |p: Seq<char>| port_in_text(p);
    let g = |i: JsonView| port_in_item(i);
    splitting_undoes_joining(part, ',', rest);
    keeping_one_item(part, f);
    keeping_goes_item_by_item(seq![part], split(rest, ','), f);
    assert(items.push(JsonView::Unsigned(n)).drop_last() =~= items);
    assert(items.push(item).drop_last() =~= items);
    keeping_one_item(item, g);
    assert(kept(Seq::<JsonView>::empty(), g) =~= Seq::<u16>::empty());
}

/// The texts of an array are listed in order, and what is no text is passed over.
pub proof fn texts_are_listed(value: JsonView, field: Seq<char>, items: Seq<JsonView>, s: Seq<char>)
    ensures
        value.get(field) == Some(JsonView::Array(items.push(JsonView::Text(s)))) ==> texts_in(
            value,
            field,
        ) == kept(items, |i: JsonView| i.as_str()).push(s),
        !(value.get(field) is Some && value.get(field)->0 is Array) ==> texts_in(value, field)
            == Seq::<Seq<char>>::empty(),
{
    assert(items.push(JsonView::Text(s)).drop_last() =~= items);
}

// ---------------------------------------------------------------------------
// Sections
// ---------------------------------------------------------------------------

/// The cadence is read from the agent's own section, and a zero is none.
pub proof fn cadence_is_read_from_its_section(
    config: JsonView,
    section: JsonView,
    field: Seq<char>,
    n: u64,
)
    ensures
        config.get("config"@) == Some(section) && section.get(field) == Some(JsonView::Unsigned(n))
            ==> config_secs(config, field) == if n == 0 {
            None
        } else {
            Some(n)
        },
        config.get("config"@) is None ==> config_secs(config, field) is None && config_send_stats(
            config,
        ) is None,
        config.get("config"@) == Some(section) && section.get("send_stats"@) == Some(
            JsonView::Bool(true),
        ) ==> config_send_stats(config) == Some(true),
        config.get("config"@) == Some(section) && section.get("send_stats"@) == Some(
            JsonView::Bool(false),
        ) ==> config_send_stats(config) == Some(false),
{
}

/// A metrics stream is what its entry says: the source by its key, the route by its three
/// texts, and intervals of one and of ten seconds where none is given.
pub proof fn metrics_are_read(
    key: Seq<char>,
    value: JsonView,
    endpoint: Seq<char>,
    archive: Seq<char>,
    repo: Seq<char>,
)
    ensures
        key.len() > 0 && has_text(value, "subbox_endpoint"@, endpoint) && has_text(
            value,
            "archive_id"@,
            archive,
        ) && has_text(value, "repo_id"@, repo) ==> metrics_stream((key, value)) is Some && {
            let m = metrics_stream((key, value))->0;
            &&& m.metric_source_id == key
            &&& m.subbox_endpoint == endpoint
            &&& m.archive_id == archive
            &&& m.repo_id == repo
            &&& m.collection_interval_secs == positive_or(value, "collection_interval_secs"@, 1)
            &&& m.send_interval_secs == positive_or(value, "send_interval_secs"@, 10)
            &&& metrics_error((key, value)) is None
        },
        metrics_stream((key, value)) is Some ==> {
            let m = metrics_stream((key, value))->0;
            &&& key.len() > 0
            &&& has_text(value, "subbox_endpoint"@, m.subbox_endpoint)
            &&& has_text(value, "archive_id"@, m.archive_id)
            &&& has_text(value, "repo_id"@, m.repo_id)
        },
        metrics_stream((key, value)) is None <==> metrics_error((key, value)) is Some,
{
}

/// The agent's own log is shipped if it is switched on and has its three texts; the level
/// is `info` where none is given, and a tenant that is not named is empty.
pub proof fn telemetry_is_read(
    section: JsonView,
    endpoint: Seq<char>,
    archive: Seq<char>,
    repo: Seq<char>,
    s: Seq<char>,
    context: JsonView,
)
    ensures
        section.get("enabled"@) == Some(JsonView::Bool(true)) && has_text(
            section,
            "subbox_endpoint"@,
            endpoint,
        ) && has_text(section, "archive_id"@, archive) && has_text(section, "repo_id"@, repo)
            ==> telemetry_of(section) is Some && {
            let t = telemetry_of(section)->0;
            &&& t.enabled
            &&& t.subbox_endpoint == endpoint
            &&& t.archive_id == archive
            &&& t.repo_id == repo
            &&& has_text(section, "min_level"@, s) ==> t.min_level == s
            &&& section.get("min_level"@) is None ==> t.min_level == "info"@
            &&& section.get("context"@) == Some(context) && context.get("tenant_id"@) == Some(
                JsonView::Text(s),
            ) ==> t.context.tenant_id == s
            &&& section.get("context"@) == Some(context) && context.get("tenant_name"@) == Some(
                JsonView::Text(s),
            ) ==> t.context.tenant_name == s
            &&& section.get("context"@) == Some(context) && context.get("customer_archive_id"@)
                == Some(JsonView::Text(s)) ==> t.context.customer_archive_id == s
            &&& section.get("context"@) == Some(context) && context.get("tenant_id"@) is None
                ==> t.context.tenant_id.len() == 0
            &&& section.get("context"@) is None ==> t.context.tenant_id.len() == 0
                && t.context.tenant_name.len() == 0 && t.context.customer_archive_id.len() == 0
        },
        section.get("enabled"@) != Some(JsonView::Bool(true)) ==> telemetry_of(section) is None,
        telemetry_of(section) is Some ==> has_text(
            section,
            "subbox_endpoint"@,
            telemetry_of(section)->0.subbox_endpoint,
        ) && has_text(section, "archive_id"@, telemetry_of(section)->0.archive_id) && has_text(
            section,
            "repo_id"@,
            telemetry_of(section)->0.repo_id,
        ),
{
    reveal_strlit("");
}

/// A target of the probes is what its entry says; without a name, a route, or with a unit
/// that is no text it is none.
pub proof fn targets_are_read(
    key: Seq<char>,
    target: JsonView,
    name: Seq<char>,
    archive: Seq<char>,
    repo: Seq<char>,
    endpoint: Seq<char>,
    unit: Seq<char>,
)
    requires
        has_text(target, "service_name"@, name),
        has_text(target, "archive_id"@, archive),
        has_text(target, "repo_id"@, repo),
        has_text(target, "subbox_endpoint"@, endpoint),
        key.len() > 0,
    ensures
        target.get("systemd_unit"@) is None || has_text(target, "systemd_unit"@, unit)
            ==> target_of((key, target)) is Some && {
            let t = target_of((key, target))->0;
            &&& t.log_source_id == key
            &&& t.service_name == name
            &&& t.archive_id == archive
            &&& t.repo_id == repo
            &&& t.subbox_endpoint == endpoint
            &&& t.open_ports == ports_in(target.get("open_ports"@))
            &&& t.protocols == texts_in(target, "protocols"@)
            &&& target.get("systemd_unit"@) is None ==> t.systemd_unit is None
            &&& has_text(target, "systemd_unit"@, unit) ==> t.systemd_unit == Some(unit)
        },
        target_of((Seq::<char>::empty(), target)) is None,
{
}

/// A target that is read has all that routes it.
pub proof fn targets_can_be_routed(key: Seq<char>, target: JsonView)
    requires
        target_of((key, target)) is Some,
    ensures
        ({
            let t = target_of((key, target))->0;
            &&& has_text(target, "service_name"@, t.service_name)
            &&& has_text(target, "archive_id"@, t.archive_id)
            &&& has_text(target, "repo_id"@, t.repo_id)
            &&& has_text(target, "subbox_endpoint"@, t.subbox_endpoint)
        }),
{
}

/// The section of the probes is read as it stands: switched off unless it says on, on port
/// 4318 unless it names another, with flows switched on and off by themselves.
pub proof fn probes_are_read(section: JsonView, c: EbpfSectionConfig, flows: JsonView, n: u64)
    requires
        reads_section(section, c),
    ensures
        c.enabled <==> section.get("enabled"@) == Some(JsonView::Bool(true)),
        section.get("receiver_port"@) == Some(JsonView::Unsigned(n)) && n <= 65535
            ==> c.receiver_port == n,
        section.get("receiver_port"@) is None ==> c.receiver_port == 4318,
        section.get("receiver_port"@) == Some(JsonView::Unsigned(n)) && n > 65535
            ==> c.receiver_port == 4318,
        section.get("network_flows"@) is None ==> !c.network_flows_enabled
            && c.network_cidrs@.len() == 0,
        section.get("network_flows"@) == Some(flows) ==> (c.network_flows_enabled <==> flows.get(
            "enabled"@,
        ) == Some(JsonView::Bool(true))),
        section.get("network_flows"@) == Some(flows) ==> strings(c.network_cidrs@) == texts_in(
            flows,
            "cidrs"@,
        ),
{
    assert(strings(c.network_cidrs@).len() == c.network_cidrs@.len());
}

/// An entry describes a trace proxy just if it has an id, its addresses are addresses, its
/// route is there, the names that it lets through are filled texts, and what has to be true
/// or false is.
pub proof fn proxies_need_their_fields(
    id: Seq<char>,
    proxy: JsonView,
    addresses: Map<Seq<char>, String>,
    ctx: FieldContext,
    listen: Seq<char>,
    endpoint: Seq<char>,
    archive: Seq<char>,
    repo: Seq<char>,
    grpc: Seq<char>,
    names: Seq<JsonView>,
    flag: bool,
)
    requires
        has_text(proxy, "listen_address"@, listen),
        has_text(proxy, "subbox_endpoint"@, endpoint),
        has_text(proxy, "archive_id"@, archive),
        has_text(proxy, "repo_id"@, repo),
        proxy.get("allowed_service_names"@) is None || proxy.get("allowed_service_names"@) == Some(
            JsonView::Array(names),
        ),
        forall|i: int|
            0 <= i < names.len() ==> (#[trigger] names[i]) is Text && names[i]->Text_0.len() > 0,
        proxy.get("require_service_name"@) is None || proxy.get("require_service_name"@) == Some(
            JsonView::Bool(flag),
        ),
    ensures
        id.len() > 0 && addresses.contains_key(listen) && proxy.get("grpc_listen_address"@) is None
            ==> proxy_error(id, proxy, addresses, ctx) is None,
        id.len() > 0 && addresses.contains_key(listen) && proxy.get("grpc_listen_address"@) == Some(
            JsonView::Text(grpc),
        ) && addresses.contains_key(grpc) ==> proxy_error(id, proxy, addresses, ctx) is None,
        id.len() == 0 || !addresses.contains_key(listen) ==> proxy_error(
            id,
            proxy,
            addresses,
            ctx,
        ) is Some,
        proxy.get("grpc_listen_address"@) == Some(JsonView::Text(grpc)) && !addresses.contains_key(
            grpc,
        ) ==> proxy_error(id, proxy, addresses, ctx) is Some,
{
}

/// A trace proxy is what its entry describes. A list of names that is not empty requires a
/// service's name, whatever the entry says of that.
pub proof fn proxies_are_read(
    id: Seq<char>,
    proxy: JsonView,
    addresses: Map<Seq<char>, String>,
    c: TraceProxyStreamConfig,
    listen: Seq<char>,
    grpc: Seq<char>,
    endpoint: Seq<char>,
    archive: Seq<char>,
    repo: Seq<char>,
)
    requires
        describes(id, proxy, addresses, c),
        has_text(proxy, "listen_address"@, listen),
        addresses.contains_key(listen),
        has_text(proxy, "subbox_endpoint"@, endpoint),
        has_text(proxy, "archive_id"@, archive),
        has_text(proxy, "repo_id"@, repo),
    ensures
        c.log_source_id@ == id,
        c.listen_address@ == addresses[listen]@,
        c.subbox_endpoint@ == endpoint,
        c.archive_id@ == archive,
        c.repo_id@ == repo,
        proxy.get("grpc_listen_address"@) is None ==> c.grpc_listen_address is None,
        proxy.get("grpc_listen_address"@) == Some(JsonView::Text(grpc)) && addresses.contains_key(
            grpc,
        ) ==> c.grpc_listen_address is Some && c.grpc_listen_address->0@ == addresses[grpc]@,
        proxy.get("require_service_name"@) == Some(JsonView::Bool(true)) ==> c.require_service_name,
        c.allowed_service_names@.len() > 0 ==> c.require_service_name,
        proxy.get("require_service_name"@) != Some(JsonView::Bool(true))
            && c.allowed_service_names@.len() == 0 ==> !c.require_service_name,
{
    assert(strings(c.allowed_service_names@).len() == c.allowed_service_names@.len());
}

/// All that a proxy is restarted for is told apart in what is digested: the addresses, the
/// route, whether a name is required, and every name that is let through.
pub proof fn proxies_restart_for_every_change(
    listen: Seq<char>,
    grpc: Option<Seq<char>>,
    endpoint: Seq<char>,
    archive: Seq<char>,
    repo: Seq<char>,
    required: bool,
    names: Seq<Seq<char>>,
    listen2: Seq<char>,
    grpc2: Option<Seq<char>>,
    endpoint2: Seq<char>,
    archive2: Seq<char>,
    repo2: Seq<char>,
    required2: bool,
    names2: Seq<Seq<char>>,
)
    requires
        restart_fields(listen, grpc, endpoint, archive, repo, required, names) == restart_fields(
            listen2,
            grpc2,
            endpoint2,
            archive2,
            repo2,
            required2,
            names2,
        ),
        grpc != Some(Seq::<char>::empty()),
        grpc2 != Some(Seq::<char>::empty()),
    ensures
        listen == listen2,
        grpc == grpc2,
        endpoint == endpoint2,
        archive == archive2,
        repo == repo2,
        required == required2,
        names == names2,
{
    let a = restart_fields(listen, grpc, endpoint, archive, repo, required, names);
    let b = restart_fields(listen2, grpc2, endpoint2, archive2, repo2, required2, names2);
    reveal_strlit("true");
    reveal_strlit("false");
    reveal_strlit("");
    assert("true"@.len() == 4 && "false"@.len() == 5);
    assert(""@ =~= Seq::<char>::empty());
    assert(a[0] == listen && b[0] == listen2);
    assert(a[1] == b[1] && a[2] == b[2] && a[3] == b[3] && a[4] == b[4] && a[5] == b[5]);
    assert(a[2] == endpoint && b[2] == endpoint2);
    assert(a[3] == archive && b[3] == archive2);
    assert(a[4] == repo && b[4] == repo2);
    assert(a.skip(7) =~= names);
    assert(b.skip(7) =~= names2);
}

// ---------------------------------------------------------------------------
// The process
// ---------------------------------------------------------------------------

/// The token that is given counts, without white space; two are refused, a blank one too;
/// without one the stored one counts, which local mode does not need.
pub proof fn tokens_are_chosen(cli: Cli, stored: Option<Seq<char>>)
    ensures
        cli.account_token is Some && cli.server_token is Some ==> token_of(cli, stored) == Err::<
            (Option<Seq<char>>, bool),
            AppConfigError,
        >(AppConfigError::BothTokens),
        cli.account_token is Some && cli.server_token is None ==> token_of(cli, stored) == if trimmed(
            cli.account_token->0@,
        ).len() > 0 {
            Ok::<(Option<Seq<char>>, bool), AppConfigError>(
                (Some(trimmed(cli.account_token->0@)), true),
            )
        } else {
            Err(AppConfigError::EmptyAccountToken)
        },
        cli.account_token is None && cli.server_token is Some ==> token_of(cli, stored) == if trimmed(
            cli.server_token->0@,
        ).len() > 0 {
            Ok::<(Option<Seq<char>>, bool), AppConfigError>(
                (Some(trimmed(cli.server_token->0@)), false),
            )
        } else {
            Err(AppConfigError::EmptyServerToken)
        },
        cli.account_token is None && cli.server_token is None && cli.local_mode ==> token_of(
            cli,
            stored,
        ) == Ok::<(Option<Seq<char>>, bool), AppConfigError>((None, false)),
        cli.account_token is None && cli.server_token is None && !cli.local_mode ==> token_of(
            cli,
            stored,
        ) == if stored is Some && trimmed(stored->0).len() > 0 {
            Ok::<(Option<Seq<char>>, bool), AppConfigError>((Some(trimmed(stored->0)), false))
        } else {
            Err(AppConfigError::NoToken)
        },
{
}

/// Host mode is on, unless the environment switches it off; a text that says neither is
/// refused.
pub proof fn host_mode_is_on_by_default(value: Seq<char>)
    ensures
        host_mode_of(None) == Some(true),
        trimmed(value).len() == 0 ==> host_mode_of(Some(value)) == Some(true),
        trimmed(value).len() > 0 ==> {
            let v = ascii_lowered(trimmed(trimmed(value)));
            host_mode_of(Some(value)) == if v == "1"@ || v == "true"@ || v == "yes"@ || v == "on"@ {
                Some(true)
            } else if v == "0"@ || v == "false"@ || v == "no"@ || v == "off"@ {
                Some(false)
            } else {
                None
            }
        },
{
}

/// The URL of the control plane is looked at unless the agent runs locally.
pub proof fn local_mode_needs_no_control_plane(
    cli: Cli,
    stored: Option<Seq<char>>,
    env: Option<Seq<char>>,
)
    requires
        token_of(cli, stored) is Ok,
        host_mode_of(env) is Some,
    ensures
        cli.local_mode ==> app_error(cli, stored, env) is None,
        !cli.local_mode ==> (app_error(cli, stored, env) is None <==> url_error(cli.rails@) is None),
{
}

} // verus!
