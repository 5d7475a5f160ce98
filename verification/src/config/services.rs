//! Service descriptions: collection by what a container is.
//!
//! Descriptions are an ordered list, and the order is priority: the first whose
//! selector matches a container claims it. A selector is a set of atoms that all
//! have to be among the container's.
use vstd::prelude::*;
use vstd::string::*;

use crate::config::fields::{
    filled_field, opt_json_view, optional_string_field, required_config_string, FieldContext,
    LogSourceId,
};
use crate::config::logs::{
    adopted, all_collect_streams, all_resolve_to, collect_directives, diagnosed, directive_in,
    directives_resolve_one_way, nothing_resolved, read_directive, resolve_collect_streams_into,
    routed, route_source, text_or_empty, CollectDiagnostic, CollectStreamConfig, CollectView,
    DiagnosticView, ResolvedCollectStreams, ResolvedView,
};
use crate::config::unified::UnifiedConfig;
use crate::discovery::cache::{
    distinct, distinct_containers_are_determined, ref_views, DiscoveryCache, MatchStatus,
};
use crate::discovery::container::{Container, ContainerView, LocalFiles};
use crate::json::{text_entries, text_map, views, Json, JsonView};
use crate::seqs::{kept, lemma_kept_step};
use crate::strmap::{texts, StrMap};
use crate::text::{
    chars_of, concat, contains_string, decimal_of, join2, join3, str_eq, string_from_chars, strings,
};

verus! {

/// Which state of a directive a synthesized source takes over: the id of the
/// directive's source and that of the source that replaces it.
#[derive(Debug, PartialEq, Eq)]
pub struct CheckpointAdoption {
    pub legacy_log_source_id: String,
    pub log_source_id: String,
}

/// What an adoption is.
#[verifier::ext_equal]
pub struct AdoptionView {
    pub legacy_log_source_id: Seq<char>,
    pub log_source_id: Seq<char>,
}

impl View for CheckpointAdoption {
    type V = AdoptionView;

    open spec fn view(&self) -> AdoptionView {
        AdoptionView {
            legacy_log_source_id: self.legacy_log_source_id@,
            log_source_id: self.log_source_id@,
        }
    }
}

/// A service description.
pub struct ServiceDescription {
    pub service_slug: String,
    /// Atoms that all have to be there. Without any, nothing matches.
    pub selector: StrMap<String>,
    /// How the containers that match are collected from. The ids of their
    /// sources extend its own.
    pub collect: CollectStreamConfig,
}

/// What a description is.
#[verifier::ext_equal]
pub struct DescriptionView {
    pub service_slug: Seq<char>,
    pub selector: Map<Seq<char>, Seq<char>>,
    pub collect: CollectView,
}

impl View for ServiceDescription {
    type V = DescriptionView;

    open spec fn view(&self) -> DescriptionView {
        DescriptionView {
            service_slug: self.service_slug@,
            selector: texts(self.selector@),
            collect: self.collect@,
        }
    }
}

// ---------------------------------------------------------------------------
// Reading descriptions
// ---------------------------------------------------------------------------

/// The selector that a value writes: an object of texts. A value of another kind
/// spoils the whole selector, for dropping the pair would widen the match.
pub open spec fn selector_in(value: Option<JsonView>) -> Option<Map<Seq<char>, Seq<char>>> {
    match value {
        Some(JsonView::Object(entries)) => text_entries(entries),
        _ => None,
    }
}

/// The directive that a description collects by. Its id is a field, and it needs
/// no locator.
pub open spec fn description_collect(value: JsonView) -> Option<CollectView> {
    match filled_field(value, "log_source_id"@) {
        Some(id) => directive_in(id, text_or_empty(filled_field(value, "locator"@)), value),
        None => None,
    }
}

/// The description that an entry writes, if it is well formed.
pub open spec fn description_in(entry: JsonView) -> Option<DescriptionView> {
    let selector = selector_in(entry.get("selector"@));
    let collect = match entry.get("collect"@) {
        Some(value) => description_collect(value),
        None => None,
    };
    if selector is Some && collect is Some {
        Some(
            DescriptionView {
                service_slug: text_or_empty(filled_field(entry, "service_slug"@)),
                selector: selector->0,
                collect: collect->0,
            },
        )
    } else {
        None
    }
}

/// The descriptions of a configuration, in order.
pub open spec fn descriptions_in(config: JsonView) -> Seq<DescriptionView> {
    match config.get("services"@) {
        Some(JsonView::Array(items)) => kept(items, |item: JsonView| description_in(item)),
        _ => seq![],
    }
}

/// What descriptions of a list are.
pub open spec fn description_views(v: Seq<ServiceDescription>) -> Seq<DescriptionView> {
    v.map_values(|d: ServiceDescription| d@)
}

pub fn parse_selector(value: Option<&Json>) -> (r: Option<StrMap<String>>)
    ensures
        match r {
            Some(m) => selector_in(opt_json_view(value)) == Some(texts(m@)),
            None => selector_in(opt_json_view(value)) is None,
        },
{
    match value {
        Some(v) => match v.as_object() {
            Some(entries) => text_map(entries),
            None => None,
        },
        None => None,
    }
}

pub fn parse_collect(entry: &Json, ctx: FieldContext<'_>) -> (r: Option<CollectStreamConfig>)
    ensures
        match r {
            Some(c) => description_collect(entry@) == Some(c@),
            None => description_collect(entry@) is None,
        },
{
    let log_source_id = match required_config_string::<LogSourceId>(entry, "log_source_id", ctx) {
        Some(id) => id.0,
        None => {
            return None;
        },
    };
    let locator = match optional_string_field(entry, "locator") {
        Some(s) => s,
        None => {
            let none = String::new();
            assert(none@ =~= seq![]);
            none
        },
    };
    read_directive(log_source_id, locator, entry, ctx)
}

fn read_description(position: usize, entry: &Json) -> (r: Option<ServiceDescription>)
    ensures
        match r {
            Some(d) => description_in(entry@) == Some(d@),
            None => description_in(entry@) is None,
        },
{
    let service_slug = match optional_string_field(entry, "service_slug") {
        Some(s) => s,
        None => {
            let none = String::new();
            assert(none@ =~= seq![]);
            none
        },
    };
    let label = if service_slug.as_str().is_empty() {
        concat("#", decimal_of(position as u64).as_str())
    } else {
        service_slug.clone()
    };
    let ctx = FieldContext::entry("services", label.as_str());
    let selector = match parse_selector(entry.get("selector")) {
        Some(selector) => selector,
        None => {
            return None;
        },
    };
    let collect = match entry.get("collect") {
        Some(value) => match parse_collect(value, ctx) {
            Some(collect) => collect,
            None => {
                return None;
            },
        },
        None => {
            return None;
        },
    };
    Some(ServiceDescription { service_slug, selector, collect })
}

/// The descriptions of a configuration's `services` list. A malformed entry is
/// passed over and the others count.
pub fn all_service_descriptions(config: &UnifiedConfig) -> (r: Vec<ServiceDescription>)
    ensures
        description_views(r@) == descriptions_in(config.raw@),
{
    let mut out: Vec<ServiceDescription> = Vec::new();
    assert(description_views(out@) =~= seq![]);
    let items = match config.raw.get("services") {
        Some(v) => match v.as_array() {
            Some(items) => items,
            None => {
                return out;
            },
        },
        None => {
            return out;
        },
    };
    let ghost rows = views(items@);
    let ghost f = |item: JsonView| description_in(item);
    let mut i: usize = 0;
    assert(description_views(out@) =~= kept(rows.take(0), f));
    while i < items.len()
        invariant
            i <= items@.len(),
            rows == views(items@),
            config.raw@.get("services"@) == Some(JsonView::Array(rows)),
            f == (|item: JsonView| description_in(item)),
            description_views(out@) == kept(rows.take(i as int), f),
        decreases items.len() - i,
    {
        proof {
            lemma_kept_step(rows, f, i as int);
            assert(rows[i as int] == items@[i as int]@);
        }
        let ghost before = description_views(out@);
        match read_description(i, &items[i]) {
            Some(d) => {
                out.push(d);
                assert(description_views(out@) =~= before.push(d@));
            },
            None => {},
        }
        i = i + 1;
    }
    assert(rows.take(i as int) =~= rows);
    out
}

// ---------------------------------------------------------------------------
// Selectors
// ---------------------------------------------------------------------------

/// Whether a selector matches atoms: it is not empty, and every pair of it is
/// among them.
pub open spec fn selects(
    selector: Map<Seq<char>, Seq<char>>,
    atoms: Map<Seq<char>, Seq<char>>,
) -> bool {
    &&& exists|kind: Seq<char>| #[trigger] selector.contains_key(kind)
    &&& forall|kind: Seq<char>| #[trigger]
        selector.contains_key(kind) ==> atoms.contains_key(kind) && atoms[kind] == selector[kind]
}

/// Whether a selector matches a container's atoms.
pub fn selector_matches(selector: &StrMap<String>, atoms: &StrMap<String>) -> (r: bool)
    ensures
        r == selects(texts(selector@), texts(atoms@)),
{
    let ghost sel = texts(selector@);
    let ghost at = texts(atoms@);
    let ghost es = selector.entries@;
    if selector.is_empty() {
        assert forall|kind: Seq<char>| !#[trigger] sel.contains_key(kind) by {
            crate::strmap::lemma_position(es, kind);
        }
        return false;
    }
    proof {
        let kind = es[0].0@;
        assert(crate::strmap::position(es, kind) == 0);
        assert(sel.contains_key(kind));
    }
    let mut i: usize = 0;
    while i < selector.entries.len()
        invariant
            i <= selector.entries@.len(),
            es == selector.entries@,
            sel == texts(selector@),
            at == texts(atoms@),
            exists|kind: Seq<char>| #[trigger] sel.contains_key(kind),
            forall|j: int|
                0 <= j < i ==> at.contains_key((#[trigger] es[j]).0@) && at[es[j].0@]
                    == sel[es[j].0@],
        decreases selector.entries.len() - i,
    {
        let kind = selector.entries[i].0.as_str();
        proof {
            crate::strmap::lemma_position(es, kind@);
            assert(crate::strmap::position(es, kind@) < es.len()) by {
                if crate::strmap::position(es, kind@) >= es.len() {
                    assert(es[i as int].0@ != kind@);
                }
            }
            assert(sel.contains_key(kind@));
        }
        match (selector.get(kind), atoms.get(kind)) {
            (Some(want), Some(have)) => {
                if !str_eq(want.as_str(), have.as_str()) {
                    assert(at[kind@] != sel[kind@]);
                    return false;
                }
            },
            _ => {
                return false;
            },
        }
        i = i + 1;
    }
    proof {
        assert forall|kind: Seq<char>| #[trigger] sel.contains_key(kind) implies at.contains_key(
            kind,
        ) && at[kind] == sel[kind] by {
            crate::strmap::lemma_position(es, kind);
            let p = crate::strmap::position(es, kind);
            assert(es[p].0@ == kind);
        }
    }
    true
}

/// A selector without atoms matches nothing.
pub proof fn empty_selector_never_matches(atoms: Map<Seq<char>, Seq<char>>)
    ensures
        !selects(Map::<Seq<char>, Seq<char>>::empty(), atoms),
{
}

/// One more atom in a selector never lets it match more.
pub proof fn narrower_selectors_match_less(
    selector: Map<Seq<char>, Seq<char>>,
    kind: Seq<char>,
    value: Seq<char>,
    atoms: Map<Seq<char>, Seq<char>>,
)
    requires
        !selector.contains_key(kind),
        exists|k: Seq<char>| #[trigger] selector.contains_key(k),
        selects(selector.insert(kind, value), atoms),
    ensures
        selects(selector, atoms),
{
    let wide = selector.insert(kind, value);
    assert forall|k: Seq<char>| #[trigger] selector.contains_key(k) implies atoms.contains_key(k)
        && atoms[k] == selector[k] by {
        assert(wide.contains_key(k));
    }
}

/// What a selector matches goes on matching when a container gains atoms.
pub proof fn more_atoms_keep_the_match(
    selector: Map<Seq<char>, Seq<char>>,
    atoms: Map<Seq<char>, Seq<char>>,
    kind: Seq<char>,
    value: Seq<char>,
)
    requires
        selects(selector, atoms),
        !atoms.contains_key(kind),
    ensures
        selects(selector, atoms.insert(kind, value)),
{
    assert forall|k: Seq<char>| #[trigger] selector.contains_key(k) implies atoms.insert(
        kind,
        value,
    ).contains_key(k) && atoms.insert(kind, value)[k] == selector[k] by {
        assert(atoms.contains_key(k));
    }
}

// ---------------------------------------------------------------------------
// Ids
// ---------------------------------------------------------------------------

/// Whether a character does not go into the name of a directory.
pub open spec fn folded(c: char) -> bool {
    c == '/' || c == '\\' || c == ':' || c == '.' || c == ' '
}

/// An id with underscores for what does not go into the name of a directory.
pub open spec fn underscored(id: Seq<char>) -> Seq<char> {
    id.map_values(
        |c: char|
            if folded(c) {
                '_'
            } else {
                c
            },
    )
}

/// A text without the underscores that it begins with.
pub open spec fn no_leading(s: Seq<char>) -> Seq<char>
    decreases s.len(),
{
    if s.len() > 0 && s[0] == '_' {
        no_leading(s.skip(1))
    } else {
        s
    }
}

/// A text without the underscores that it ends with.
pub open spec fn no_trailing(s: Seq<char>) -> Seq<char>
    decreases s.len(),
{
    if s.len() > 0 && s.last() == '_' {
        no_trailing(s.drop_last())
    } else {
        s
    }
}

/// The name of the directory that a source keeps its state in.
pub open spec fn sanitized(id: Seq<char>) -> Seq<char> {
    no_trailing(no_leading(underscored(id)))
}

/// The name of the directory that a source keeps its state in.
pub fn sanitize_id(id: &str) -> (r: String)
    ensures
        r@ == sanitized(id@),
{
    let chars = chars_of(id);
    let mut out: Vec<char> = Vec::new();
    let ghost all = underscored(id@);
    let mut i: usize = 0;
    while i < chars.len()
        invariant
            i <= chars@.len(),
            chars@ == id@,
            all == underscored(id@),
            out@ == all.take(i as int),
        decreases chars.len() - i,
    {
        let c = chars[i];
        let folds = c == '/' || c == '\\' || c == ':' || c == '.' || c == ' ';
        out.push(
            if folds {
                '_'
            } else {
                c
            },
        );
        i = i + 1;
        assert(all.take(i as int) =~= all.take(i - 1).push(all[i - 1]));
    }
    assert(all.take(i as int) =~= all);
    let mut start: usize = 0;
    assert(out@.skip(0) =~= out@);
    while start < out.len() && out[start] == '_'
        invariant
            start <= out@.len(),
            no_leading(out@) == no_leading(out@.skip(start as int)),
        decreases out.len() - start,
    {
        assert(out@.skip(start as int).skip(1) =~= out@.skip(start + 1));
        start = start + 1;
    }
    let mut end: usize = out.len();
    assert(out@.skip(start as int) =~= out@.subrange(start as int, end as int));
    while end > start && out[end - 1] == '_'
        invariant
            start <= end <= out@.len(),
            no_trailing(no_leading(out@)) == no_trailing(
                out@.subrange(start as int, end as int),
            ),
        decreases end,
    {
        assert(out@.subrange(start as int, end as int).drop_last() =~= out@.subrange(
            start as int,
            end - 1,
        ));
        end = end - 1;
    }
    let text = string_from_chars(&out);
    let part = text.as_str().substring_char(start, end);
    part.to_owned()
}

/// The id of the source that a container becomes: the directive's, extended by
/// the identity of the instance. Replicas in Kubernetes that have no identity of
/// their own are told apart by their pods.
pub open spec fn source_id(collect_id: Seq<char>, c: ContainerView) -> Seq<char> {
    let instance = c.stable_instance_id();
    if c.runtime == "kubernetes"@ && instance == c.stable_id() && c.pod_name.len() > 0 {
        collect_id + "/"@ + instance + "/"@ + c.pod_name
    } else {
        collect_id + "/"@ + instance
    }
}

pub fn synthesized_source_id(collect_log_source_id: &str, container: &Container) -> (r: String)
    ensures
        r@ == source_id(collect_log_source_id@, container@),
{
    let instance = container.stable_instance_id();
    let stable = container.stable_id();
    if str_eq(container.runtime.as_str(), "kubernetes") && str_eq(instance.as_str(), stable.as_str())
        && !container.pod_name.as_str().is_empty() {
        return join3(
            collect_log_source_id,
            "/",
            instance.as_str(),
            container.pod_name.as_str(),
        );
    }
    join2(collect_log_source_id, "/", instance.as_str())
}

/// Two replicas in one pod namespace that share their workload's identity
/// become distinct sources if their pods have distinct names.
pub proof fn fungible_replicas_stay_apart(collect_id: Seq<char>, a: ContainerView, b: ContainerView)
    requires
        a.runtime == "kubernetes"@,
        b.runtime == "kubernetes"@,
        a.stable_instance_id() == a.stable_id(),
        b.stable_instance_id() == b.stable_id(),
        a.stable_id() == b.stable_id(),
        a.pod_name.len() > 0,
        b.pod_name.len() > 0,
        a.pod_name != b.pod_name,
    ensures
        source_id(collect_id, a) != source_id(collect_id, b),
{
    let head = collect_id + "/"@ + a.stable_id() + "/"@;
    let x = source_id(collect_id, a);
    let y = source_id(collect_id, b);
    if x == y {
        assert(a.pod_name =~= x.skip(head.len() as int));
        assert(b.pod_name =~= y.skip(head.len() as int));
    }
}

// ---------------------------------------------------------------------------
// Claims
// ---------------------------------------------------------------------------

/// What descriptions have claimed so far.
#[verifier::ext_equal]
pub struct Claims {
    pub resolved: ResolvedView,
    /// The ids of the containers that are claimed.
    pub ids: Seq<Seq<char>>,
    /// The directories that are taken.
    pub dirs: Seq<Seq<char>>,
    /// The locators of the sources that were made.
    pub locators: Seq<Seq<char>>,
}

/// What one description makes of one container. A container that is claimed, or
/// that its selector does not match, is left alone. One that it matches is
/// claimed; it becomes a source unless another took its directory or there is
/// nothing to read of it.
pub open spec fn claim(
    s: Claims,
    d: DescriptionView,
    c: ContainerView,
    files: Set<Seq<char>>,
) -> Claims {
    let id = source_id(d.collect.log_source_id, c);
    let dir = sanitized(id);
    let locator = c.log_locator(files);
    if s.ids.contains(c.id) || !selects(d.selector, c.identifier_set()) {
        s
    } else if s.dirs.contains(dir) {
        Claims { ids: s.ids.push(c.id), ..s }
    } else if locator.len() == 0 {
        Claims {
            ids: s.ids.push(c.id),
            dirs: s.dirs.push(dir),
            resolved: diagnosed(
                s.resolved,
                DiagnosticView {
                    log_source_id: id,
                    status: MatchStatus::NotFound,
                    detail: "matched container "@ + c.stable_instance_id()
                        + " has no readable log locator"@,
                },
            ),
            ..s
        }
    } else {
        let stream = CollectView { log_source_id: id, ..d.collect };
        Claims {
            ids: s.ids.push(c.id),
            dirs: s.dirs.push(dir),
            locators: s.locators.push(locator),
            resolved: adopted(
                diagnosed(
                    routed(s.resolved, stream, c.access_method(files), locator),
                    DiagnosticView {
                        log_source_id: id,
                        status: MatchStatus::Matched,
                        detail: "via selector (service "@ + d.service_slug + ")"@,
                    },
                ),
                AdoptionView {
                    legacy_log_source_id: d.collect.log_source_id,
                    log_source_id: id,
                },
            ),
        }
    }
}

/// What one description makes of containers, in order.
pub open spec fn claim_all(
    s: Claims,
    d: DescriptionView,
    cs: Seq<ContainerView>,
    files: Set<Seq<char>>,
) -> Claims
    decreases cs.len(),
{
    if cs.len() == 0 {
        s
    } else {
        claim(claim_all(s, d, cs.drop_last(), files), d, cs.last(), files)
    }
}

/// What descriptions make of containers, in the order of priority.
pub open spec fn claim_each(
    s: Claims,
    ds: Seq<DescriptionView>,
    cs: Seq<ContainerView>,
    files: Set<Seq<char>>,
) -> Claims
    decreases ds.len(),
{
    if ds.len() == 0 {
        s
    } else {
        claim_all(claim_each(s, ds.drop_last(), cs, files), ds.last(), cs, files)
    }
}

/// Nothing claimed yet.
pub open spec fn no_claims(resolved: ResolvedView) -> Claims {
    Claims { resolved, ids: seq![], dirs: seq![], locators: seq![] }
}

fn claim_container(
    resolved: &mut ResolvedCollectStreams,
    ids: &mut Vec<String>,
    dirs: &mut Vec<String>,
    locators: &mut Vec<String>,
    description: &ServiceDescription,
    container: &Container,
    files: &LocalFiles,
)
    ensures
        (Claims {
            resolved: final(resolved)@,
            ids: strings(final(ids)@),
            dirs: strings(final(dirs)@),
            locators: strings(final(locators)@),
        }) == claim(
            Claims {
                resolved: old(resolved)@,
                ids: strings(old(ids)@),
                dirs: strings(old(dirs)@),
                locators: strings(old(locators)@),
            },
            description@,
            container@,
            files@,
        ),
{
    if contains_string(ids, container.id.as_str()) {
        return;
    }
    let atoms = container.identifier_set();
    if !selector_matches(&description.selector, &atoms) {
        return;
    }
    let ghost ids_before = strings(ids@);
    let ghost dirs_before = strings(dirs@);
    let ghost locators_before = strings(locators@);
    ids.push(container.id.clone());
    assert(strings(ids@) =~= ids_before.push(container@.id));
    let log_source_id = synthesized_source_id(
        description.collect.log_source_id.as_str(),
        container,
    );
    let dir = sanitize_id(log_source_id.as_str());
    if contains_string(dirs, dir.as_str()) {
        return;
    }
    let ghost dir_name = dir@;
    dirs.push(dir);
    assert(strings(dirs@) =~= dirs_before.push(dir_name));
    let locator = container.log_locator(files);
    if locator.as_str().is_empty() {
        let mut detail = concat("matched container ", container.stable_instance_id().as_str());
        detail.append(" has no readable log locator");
        resolved.push_diagnostic(
            CollectDiagnostic { log_source_id, status: MatchStatus::NotFound, detail },
        );
        return;
    }
    locators.push(locator.clone());
    assert(strings(locators@) =~= locators_before.push(locator@));
    let stream = description.collect.with_source_id(log_source_id.clone());
    route_source(resolved, &stream, container.determine_access_method(files), locator);
    let mut detail = concat("via selector (service ", description.service_slug.as_str());
    detail.append(")");
    resolved.push_diagnostic(
        CollectDiagnostic {
            log_source_id: log_source_id.clone(),
            status: MatchStatus::Matched,
            detail,
        },
    );
    resolved.push_adoption(
        CheckpointAdoption {
            legacy_log_source_id: description.collect.log_source_id.clone(),
            log_source_id,
        },
    );
}

/// Claims containers for descriptions, in the order of priority, and makes one
/// source of each claimed container. Gives the locators of those sources, which
/// directives then leave out.
pub fn resolve_service_descriptions(
    descriptions: &Vec<ServiceDescription>,
    cache: &DiscoveryCache,
    resolved: &mut ResolvedCollectStreams,
    files: &LocalFiles,
) -> (r: Vec<String>)
    ensures
        exists|cs: Seq<ContainerView>| #[trigger]
            distinct(cache@.containers, cs) && {
                let s = claim_each(
                    no_claims(old(resolved)@),
                    description_views(descriptions@),
                    cs,
                    files@,
                );
                final(resolved)@ == s.resolved && strings(r@) == s.locators
            },
{
    let containers = cache.distinct_containers();
    let ghost cs = ref_views(containers@);
    let ghost ds = description_views(descriptions@);
    let ghost start = no_claims(resolved@);
    let mut ids: Vec<String> = Vec::new();
    let mut dirs: Vec<String> = Vec::new();
    let mut locators: Vec<String> = Vec::new();
    assert(strings(ids@) =~= seq![]);
    assert(strings(dirs@) =~= seq![]);
    assert(strings(locators@) =~= seq![]);
    let mut i: usize = 0;
    while i < descriptions.len()
        invariant
            i <= descriptions@.len(),
            cs == ref_views(containers@),
            ds == description_views(descriptions@),
            (Claims {
                resolved: resolved@,
                ids: strings(ids@),
                dirs: strings(dirs@),
                locators: strings(locators@),
            }) == claim_each(start, ds.take(i as int), cs, files@),
        decreases descriptions.len() - i,
    {
        let ghost before = claim_each(start, ds.take(i as int), cs, files@);
        let ghost d = ds[i as int];
        proof {
            assert(ds.take(i + 1).drop_last() =~= ds.take(i as int));
            assert(ds.take(i + 1).last() == d);
        }
        let mut j: usize = 0;
        while j < containers.len()
            invariant
                j <= containers@.len(),
                i < descriptions@.len(),
                cs == ref_views(containers@),
                ds == description_views(descriptions@),
                d == ds[i as int],
                (Claims {
                    resolved: resolved@,
                    ids: strings(ids@),
                    dirs: strings(dirs@),
                    locators: strings(locators@),
                }) == claim_all(before, d, cs.take(j as int), files@),
            decreases containers.len() - j,
        {
            proof {
                assert(cs.take(j + 1).drop_last() =~= cs.take(j as int));
                assert(cs.take(j + 1).last() == containers@[j as int]@);
            }
            claim_container(
                resolved,
                &mut ids,
                &mut dirs,
                &mut locators,
                &descriptions[i],
                containers[j],
                files,
            );
            j = j + 1;
        }
        assert(cs.take(j as int) =~= cs);
        i = i + 1;
    }
    assert(ds.take(i as int) =~= ds);
    locators
}

/// Whether `r` is what a configuration resolves to: descriptions claim
/// containers first, then directives are resolved without those.
pub open spec fn config_resolution(
    config: JsonView,
    cache: crate::discovery::cache::CacheView,
    files: Set<Seq<char>>,
    r: ResolvedView,
) -> bool {
    exists|cs: Seq<ContainerView>| #[trigger]
        distinct(cache.containers, cs) && {
            let s = claim_each(no_claims(nothing_resolved()), descriptions_in(config), cs, files);
            all_resolve_to(s.resolved, collect_directives(config), cache, s.locators, files, r)
        }
}

/// The sources that a configuration asks for, among what was discovered.
/// `files` are the regular files that the host was just seen to hold.
pub fn resolved_collect_from_config(
    config: &UnifiedConfig,
    cache: &DiscoveryCache,
    files: &LocalFiles,
) -> (r: ResolvedCollectStreams)
    ensures
        config_resolution(config.raw@, cache@, files@, r@),
{
    let mut resolved = ResolvedCollectStreams::default();
    let descriptions = all_service_descriptions(config);
    let claimed = resolve_service_descriptions(&descriptions, cache, &mut resolved, files);
    let collect = all_collect_streams(config);
    resolve_collect_streams_into(&mut resolved, &collect, cache, &claimed, files);
    resolved
}

// ---------------------------------------------------------------------------
// Laws
// ---------------------------------------------------------------------------

/// What a configuration resolves to is determined by the configuration, by what was
/// discovered and by the files that the host holds: a scan that finds the same
/// changes no pipeline.
pub proof fn collection_is_deterministic(
    config: JsonView,
    cache: crate::discovery::cache::CacheView,
    files: Set<Seq<char>>,
    a: ResolvedView,
    b: ResolvedView,
)
    requires
        config_resolution(config, cache, files, a),
        config_resolution(config, cache, files, b),
    ensures
        a == b,
{
    let descriptions = descriptions_in(config);
    let none = no_claims(nothing_resolved());
    let directives = collect_directives(config);
    let x = choose|cs: Seq<ContainerView>| #[trigger]
        distinct(cache.containers, cs) && {
            let s = claim_each(none, descriptions, cs, files);
            all_resolve_to(s.resolved, directives, cache, s.locators, files, a)
        };
    let y = choose|cs: Seq<ContainerView>| #[trigger]
        distinct(cache.containers, cs) && {
            let s = claim_each(none, descriptions, cs, files);
            all_resolve_to(s.resolved, directives, cache, s.locators, files, b)
        };
    distinct_containers_are_determined(cache.containers, x, y);
    let s = claim_each(none, descriptions, x, files);
    directives_resolve_one_way(s.resolved, directives, cache, s.locators, files, a, b);
}

/// Whether claims are consistent: no container is claimed twice, no directory is
/// taken twice, and every adoption has a directory of its own.
pub open spec fn consistent(s: Claims) -> bool {
    &&& s.ids.no_duplicates()
    &&& s.dirs.no_duplicates()
    &&& forall|i: int|
        0 <= i < s.resolved.checkpoint_adoptions.len() ==> s.dirs.contains(
            sanitized((#[trigger] s.resolved.checkpoint_adoptions[i]).log_source_id),
        )
    &&& forall|i: int, j: int|
        0 <= i < j < s.resolved.checkpoint_adoptions.len() ==> sanitized(
            (#[trigger] s.resolved.checkpoint_adoptions[i]).log_source_id,
        ) != sanitized((#[trigger] s.resolved.checkpoint_adoptions[j]).log_source_id)
    &&& s.locators.len() == s.resolved.checkpoint_adoptions.len()
    &&& s.locators.len() <= s.ids.len()
}

proof fn lemma_push_no_duplicates(s: Seq<Seq<char>>, x: Seq<char>)
    requires
        s.no_duplicates(),
        !s.contains(x),
    ensures
        s.push(x).no_duplicates(),
        s.push(x).contains(x),
        forall|y: Seq<char>| s.contains(y) ==> #[trigger] s.push(x).contains(y),
{
    let t = s.push(x);
    assert(t[s.len() as int] == x);
    assert forall|y: Seq<char>| s.contains(y) implies #[trigger] t.contains(y) by {
        let i = choose|i: int| 0 <= i < s.len() && s[i] == y;
        assert(t[i] == y);
    }
    assert forall|i: int, j: int| 0 <= i < t.len() && 0 <= j < t.len() && i != j implies t[i]
        != t[j] by {
        if i < s.len() && j < s.len() {
            assert(s[i] != s[j]);
        } else if i < s.len() {
            assert(s.contains(s[i]));
        } else {
            assert(s.contains(s[j]));
        }
    }
}

proof fn lemma_claim_consistent(
    s: Claims,
    d: DescriptionView,
    c: ContainerView,
    files: Set<Seq<char>>,
)
    requires
        consistent(s),
    ensures
        consistent(claim(s, d, c, files)),
{
    let t = claim(s, d, c, files);
    let id = source_id(d.collect.log_source_id, c);
    let dir = sanitized(id);
    if s.ids.contains(c.id) || !selects(d.selector, c.identifier_set()) {
    } else {
        lemma_push_no_duplicates(s.ids, c.id);
        if !s.dirs.contains(dir) {
            lemma_push_no_duplicates(s.dirs, dir);
            let a = s.resolved.checkpoint_adoptions;
            let b = t.resolved.checkpoint_adoptions;
            assert forall|i: int| 0 <= i < b.len() implies t.dirs.contains(
                sanitized((#[trigger] b[i]).log_source_id),
            ) by {
                if i < a.len() {
                    assert(b[i] == a[i]);
                    assert(s.dirs.contains(sanitized(a[i].log_source_id)));
                }
            }
            assert forall|i: int, j: int| 0 <= i < j < b.len() implies sanitized(
                (#[trigger] b[i]).log_source_id,
            ) != sanitized((#[trigger] b[j]).log_source_id) by {
                assert(b[i] == a[i]);
                assert(s.dirs.contains(sanitized(a[i].log_source_id)));
                if j < a.len() {
                    assert(b[j] == a[j]);
                }
            }
        }
    }
}

proof fn lemma_claim_all_consistent(
    s: Claims,
    d: DescriptionView,
    cs: Seq<ContainerView>,
    files: Set<Seq<char>>,
)
    requires
        consistent(s),
    ensures
        consistent(claim_all(s, d, cs, files)),
    decreases cs.len(),
{
    if cs.len() > 0 {
        lemma_claim_all_consistent(s, d, cs.drop_last(), files);
        lemma_claim_consistent(claim_all(s, d, cs.drop_last(), files), d, cs.last(), files);
    }
}

/// However descriptions overlap, a container is claimed at most once, and no two
/// of the sources that are made of containers share a state directory.
pub proof fn claims_stay_consistent(
    ds: Seq<DescriptionView>,
    cs: Seq<ContainerView>,
    files: Set<Seq<char>>,
)
    ensures
        consistent(claim_each(no_claims(nothing_resolved()), ds, cs, files)),
    decreases ds.len(),
{
    let start = no_claims(nothing_resolved());
    if ds.len() > 0 {
        claims_stay_consistent(ds.drop_last(), cs, files);
        lemma_claim_all_consistent(
            claim_each(start, ds.drop_last(), cs, files),
            ds.last(),
            cs,
            files,
        );
    }
}

/// The first description that matches a container claims it: once claimed, the
/// container is left alone by every later one.
pub proof fn first_description_wins(
    s: Claims,
    d: DescriptionView,
    c: ContainerView,
    files: Set<Seq<char>>,
)
    requires
        s.ids.contains(c.id),
    ensures
        claim(s, d, c, files) == s,
{
}

/// A claimed container is not collected from a second time: a directive that
/// resolves to a claimed locator yields a diagnostic and no source.
pub proof fn one_pipeline_per_container(
    r: ResolvedView,
    stream: CollectView,
    access: crate::discovery::cache::AccessView,
    claimed: Seq<Seq<char>>,
)
    requires
        claimed.contains(access.access_locator),
    ensures
        ({
            let after = crate::config::logs::with_match(
                r,
                stream,
                crate::discovery::cache::MatchView::Matched(access),
                claimed,
            );
            &&& after.file_streams == r.file_streams
            &&& after.streaming_sources == r.streaming_sources
        }),
{
}

/// An edit of a selector that still matches changes nothing of the pipeline: the
/// source that a container becomes does not depend on the selector.
pub proof fn selector_edits_keep_the_pipeline(
    s: Claims,
    a: DescriptionView,
    b: DescriptionView,
    c: ContainerView,
    files: Set<Seq<char>>,
)
    requires
        a.collect == b.collect,
        a.service_slug == b.service_slug,
        selects(a.selector, c.identifier_set()),
        selects(b.selector, c.identifier_set()),
    ensures
        claim(s, a, c, files) == claim(s, b, c, files),
{
}

} // verus!
