//! The entries under which the agent reports containers.
use vstd::prelude::*;
use vstd::string::*;

use crate::discovery::container::{Container, ContainerView};
use crate::json::{entry_views, key_place, lemma_key_place_at, views, Json, JsonView};
use crate::order::{
    key_less, lemma_lex_irreflexive, lex_less, name_key, sorted_texts, sorted_unique,
    sorted_unique_by, str_less, SortKey, Sortable,
};
use crate::strmap::{lemma_position, position, texts, StrMap};
use crate::text::{str_eq, strings};

verus! {

// ---------------------------------------------------------------------------
// Objects
// ---------------------------------------------------------------------------

/// Whether a document writes a map of texts: an object with an entry for each
/// key, in the order of the keys.
pub open spec fn writes_map(v: JsonView, m: Map<Seq<char>, Seq<char>>) -> bool {
    &&& v is Object
    &&& ascending(v->Object_0)
    &&& forall|i: int|
        0 <= i < v->Object_0.len() ==> m.contains_key((#[trigger] v->Object_0[i]).0)
            && v->Object_0[i].1 == JsonView::Text(m[v->Object_0[i].0])
    &&& forall|k: Seq<char>| #[trigger] m.contains_key(k) ==> holds_key(v->Object_0, k)
}

/// Whether the keys of entries stand in order.
pub open spec fn ascending(entries: Seq<(Seq<char>, JsonView)>) -> bool {
    forall|i: int, j: int|
        0 <= i < j < entries.len() ==> lex_less(
            (#[trigger] entries[i]).0,
            (#[trigger] entries[j]).0,
        )
}

/// Whether an entry has a key.
pub open spec fn holds_key(entries: Seq<(Seq<char>, JsonView)>, k: Seq<char>) -> bool {
    exists|i: int| 0 <= i < entries.len() && (#[trigger] entries[i]).0 == k
}

/// An entry of an object.
pub fn entry(key: &str, value: Json) -> (r: (String, Json))
    ensures
        r.0@ == key@,
        r.1 == value,
{
    (key.to_owned(), value)
}

/// The object that writes a map of texts.
pub fn map_object(m: &StrMap<String>) -> (r: Json)
    ensures
        writes_map(r@, texts(m@)),
{
    let mut keys: Vec<String> = Vec::new();
    let mut i: usize = 0;
    while i < m.entries.len()
        invariant
            i <= m.entries@.len(),
            keys@.len() == i,
            forall|j: int| 0 <= j < i ==> (#[trigger] keys@[j])@ == m.entries@[j].0@,
        decreases m.entries.len() - i,
    {
        keys.push(m.entries[i].0.clone());
        i = i + 1;
    }
    let ghost all = strings(keys@);
    assert forall|k: Seq<char>| m@.contains_key(k) == all.contains(k) by {
        lemma_position(m.entries@, k);
        let p = position(m.entries@, k);
        if p < m.entries@.len() {
            assert(all[p] == k);
        } else if all.contains(k) {
            let j = choose|j: int| 0 <= j < all.len() && all[j] == k;
            assert(m.entries@[j].0@ == keys@[j]@);
        }
    }
    let sorted = sorted_texts(keys);
    let ghost key = |s: Seq<char>| name_key(s);
    let ghost names = strings(sorted@);
    let mut entries: Vec<(String, Json)> = Vec::new();
    let mut i: usize = 0;
    while i < sorted.len()
        invariant
            i <= sorted@.len(),
            names == strings(sorted@),
            key == (|s: Seq<char>| name_key(s)),
            sorted_unique_by(all, names, key),
            forall|k: Seq<char>| m@.contains_key(k) == all.contains(k),
            entries@.len() == i,
            forall|j: int|
                0 <= j < i ==> {
                    &&& (#[trigger] entries@[j]).0@ == names[j]
                    &&& m@.contains_key(names[j])
                    &&& entries@[j].1@ == JsonView::Text(m@[names[j]]@)
                },
        decreases sorted.len() - i,
    {
        proof {
            assert(crate::order::is_first_by(all, names[i as int], key));
            let at = choose|at: int|
                #[trigger] crate::order::first_by(all, at, key) && all[at] == names[i as int];
            assert(all.contains(names[i as int]));
        }
        match m.get(sorted[i].as_str()) {
            Some(value) => {
                entries.push((sorted[i].clone(), Json::text(value.as_str())));
            },
            None => {
                assert(false);
            },
        }
        i = i + 1;
    }
    let r = Json::object(entries);
    proof {
        let es = entry_views(entries@);
        assert forall|a: int, b: int| 0 <= a < b < es.len() implies lex_less(
            (#[trigger] es[a]).0,
            (#[trigger] es[b]).0,
        ) by {
            assert(es[a].0 == names[a] && es[b].0 == names[b]);
            assert(key_less(key(names[a]), key(names[b])));
        }
        assert forall|k: Seq<char>| #[trigger] texts(m@).contains_key(k) implies holds_key(es, k) by {
            assert(all.contains(k));
            let j = choose|j: int| 0 <= j < all.len() && all[j] == k;
            assert(crate::order::has_key_by(names, key(all[j]), key));
            let n = choose|n: int| 0 <= n < names.len() && key(#[trigger] names[n]) == key(all[j]);
            assert(names[n] == k);
            assert(es[n].0 == k);
        }
        assert forall|a: int| 0 <= a < es.len() implies texts(m@).contains_key(
            (#[trigger] es[a]).0,
        ) && es[a].1 == JsonView::Text(texts(m@)[es[a].0]) by {
            assert(entries@[a].0@ == names[a]);
        }
    }
    r
}

/// An object's entries with one more, in the order of the keys; an entry with the
/// same key is replaced.
pub open spec fn with_entry(
    entries: Seq<(Seq<char>, JsonView)>,
    key: Seq<char>,
    value: JsonView,
) -> Seq<(Seq<char>, JsonView)>
    decreases entries.len(),
{
    if entries.len() == 0 || lex_less(key, entries[0].0) {
        seq![(key, value)] + entries
    } else if entries[0].0 == key {
        seq![(key, value)] + entries.skip(1)
    } else {
        seq![entries[0]] + with_entry(entries.skip(1), key, value)
    }
}

/// A payload with the mark of a full report, or without. An absent payload gets the
/// mark as its only entry.
pub open spec fn stamped(payload: JsonView, full_report: bool) -> JsonView {
    if full_report {
        match payload {
            JsonView::Object(entries) => JsonView::Object(
                with_entry(entries, "full_report"@, JsonView::Bool(true)),
            ),
            _ => JsonView::Object(seq![("full_report"@, JsonView::Bool(true))]),
        }
    } else {
        payload
    }
}

/// Marks a payload that names all that there is, so that what it does not name
/// may be taken as stopped. A payload that names changes alone has no mark.
pub fn stamp_full_report(payload: Json, full_report: bool) -> (r: Json)
    requires
        full_report ==> payload@ is Object || payload@ is Null,
    ensures
        r@ == stamped(payload@, full_report),
{
    if !full_report {
        return payload;
    }
    let entries = match payload {
        Json::Object(entries) => entries,
        _ => {
            let mut mark: Vec<(String, Json)> = Vec::new();
            mark.push(entry("full_report", Json::Bool(true)));
            assert(entry_views(mark@) =~= seq![("full_report"@, JsonView::Bool(true))]);
            return Json::object(mark);
        },
    };
    let ghost all = entry_views(entries@);
    let ghost mark = JsonView::Bool(true);
    assert(payload@->Object_0 =~= all);
    let mut out: Vec<(String, Json)> = Vec::new();
    let mut done = false;
    assert(all.skip(0) =~= all);
    assert(entry_views(out@) + with_entry(all, "full_report"@, mark) =~= with_entry(
        all,
        "full_report"@,
        mark,
    ));
    for e in iter: entries
        invariant
            iter.seq() == entries@,
            all == entry_views(entries@),
            mark == JsonView::Bool(true),
            !done ==> entry_views(out@) + with_entry(
                all.skip(iter.index()),
                "full_report"@,
                mark,
            ) == with_entry(all, "full_report"@, mark),
            done ==> entry_views(out@) + all.skip(iter.index()) == with_entry(
                all,
                "full_report"@,
                mark,
            ),
    {
        let ghost i = iter.index();
        let ghost before = entry_views(out@);
        let ghost rest = all.skip(i);
        let ghost pair = (e.0@, e.1@);
        proof {
            assert(e == entries@[i]);
            assert(rest[0] == pair);
            assert(rest.skip(1) =~= all.skip(i + 1));
        }
        if done {
            out.push(e);
            assert(entry_views(out@) =~= before.push(pair));
            assert(entry_views(out@) + all.skip(i + 1) =~= before + rest);
        } else if str_less("full_report", e.0.as_str()) {
            out.push(entry("full_report", Json::Bool(true)));
            assert(entry_views(out@) =~= before.push(("full_report"@, mark)));
            let ghost mid = entry_views(out@);
            out.push(e);
            assert(entry_views(out@) =~= mid.push(pair));
            done = true;
            assert(entry_views(out@) + all.skip(i + 1) =~= before + (seq![("full_report"@, mark)]
                + rest));
        } else if str_eq("full_report", e.0.as_str()) {
            out.push(entry("full_report", Json::Bool(true)));
            assert(entry_views(out@) =~= before.push(("full_report"@, mark)));
            done = true;
            assert(entry_views(out@) + all.skip(i + 1) =~= before + (seq![("full_report"@, mark)]
                + rest.skip(1)));
        } else {
            out.push(e);
            assert(entry_views(out@) =~= before.push(pair));
            assert(entry_views(out@) + with_entry(all.skip(i + 1), "full_report"@, mark)
                =~= before + (seq![pair] + with_entry(rest.skip(1), "full_report"@, mark)));
        }
    }
    let ghost end = all.skip(all.len() as int);
    assert(end =~= seq![]);
    if !done {
        let ghost before = entry_views(out@);
        out.push(entry("full_report", Json::Bool(true)));
        assert(entry_views(out@) =~= before.push(("full_report"@, mark)));
        assert(with_entry(end, "full_report"@, mark) =~= seq![("full_report"@, mark)]);
        assert(entry_views(out@) =~= before + with_entry(end, "full_report"@, mark));
    } else {
        assert(entry_views(out@) =~= entry_views(out@) + end);
    }
    Json::object(out)
}

// ---------------------------------------------------------------------------
// Containers
// ---------------------------------------------------------------------------

/// Whether a document is the entry of a service: what is stable of it, and no
/// handle of one run.
pub open spec fn is_service_entry(v: JsonView, c: ContainerView) -> bool {
    let e = v->Object_0;
    &&& v is Object
    &&& e.len() == 11
    &&& e[0] == ("container_name"@, JsonView::Text(c.name))
    &&& e[1] == ("deployment"@, JsonView::Text(c.deployment))
    &&& e[2] == ("format"@, JsonView::Text(c.log_format))
    &&& e[3].0 == "identifiers"@
    &&& writes_map(e[3].1, c.identifier_set())
    &&& e[4] == ("image"@, JsonView::Text(c.image))
    &&& e[5].0 == "labels"@
    &&& writes_map(e[5].1, c.labels)
    &&& e[6] == ("namespace"@, JsonView::Text(c.namespace))
    &&& e[7] == ("service_name"@, JsonView::Text(c.service_name))
    &&& e[8] == ("service_name_explicit"@, JsonView::Bool(true))
    &&& e[9] == ("stable_instance_id"@, JsonView::Text(c.stable_instance_id()))
    &&& e[10] == ("state"@, JsonView::Text(c.state))
}

/// The entry of a container whose owner named its service.
pub fn service_census_entry(c: &Container) -> (r: Json)
    ensures
        is_service_entry(r@, c@),
{
    let identifiers = map_object(&c.identifier_set());
    let labels = map_object(&c.labels);
    let mut e: Vec<(String, Json)> = Vec::new();
    e.push(entry("container_name", Json::text(c.name.as_str())));
    e.push(entry("deployment", Json::text(c.deployment.as_str())));
    e.push(entry("format", Json::text(c.log_format.as_str())));
    e.push(entry("identifiers", identifiers));
    e.push(entry("image", Json::text(c.image.as_str())));
    e.push(entry("labels", labels));
    e.push(entry("namespace", Json::text(c.namespace.as_str())));
    e.push(entry("service_name", Json::text(c.service_name.as_str())));
    e.push(entry("service_name_explicit", Json::Bool(true)));
    e.push(entry("stable_instance_id", Json::text(c.stable_instance_id().as_str())));
    e.push(entry("state", Json::text(c.state.as_str())));
    Json::object(e)
}

/// Whether a document is the entry of one running instance.
pub open spec fn is_instance_entry(v: JsonView, c: ContainerView) -> bool {
    let e = v->Object_0;
    &&& v is Object
    &&& e.len() == 4
    &&& e[0].0 == "identifiers"@
    &&& writes_map(e[0].1, c.identifier_set())
    &&& e[1] == ("log_path"@, JsonView::Text(c.log_path))
    &&& e[2] == ("stable_instance_id"@, JsonView::Text(c.stable_instance_id()))
    &&& e[3] == ("state"@, JsonView::Text(c.state))
}

fn instance_entry(c: &Container) -> (r: Json)
    ensures
        is_instance_entry(r@, c@),
{
    let identifiers = map_object(&c.identifier_set());
    let mut e: Vec<(String, Json)> = Vec::new();
    e.push(entry("identifiers", identifiers));
    e.push(entry("log_path", Json::text(c.log_path.as_str())));
    e.push(entry("stable_instance_id", Json::text(c.stable_instance_id().as_str())));
    e.push(entry("state", Json::text(c.state.as_str())));
    Json::object(e)
}

/// Whether a document lists instances.
pub open spec fn lists_instances(v: JsonView, instances: Seq<ContainerView>) -> bool {
    &&& v is Array
    &&& v->Array_0.len() == instances.len()
    &&& forall|i: int|
        0 <= i < instances.len() ==> is_instance_entry(#[trigger] v->Array_0[i], instances[i])
}

/// Whether a document is the entry of a workload: what is stable of it, and its
/// running instances.
pub open spec fn is_container_entry(
    v: JsonView,
    c: ContainerView,
    instances: Seq<ContainerView>,
) -> bool {
    let e = v->Object_0;
    &&& v is Object
    &&& e.len() == 12
    &&& e[0].0 == "active_instances"@
    &&& lists_instances(e[0].1, instances)
    &&& e[1] == ("container_name"@, JsonView::Text(c.name))
    &&& e[2] == ("deployment"@, JsonView::Text(c.deployment))
    &&& e[3] == ("format"@, JsonView::Text(c.log_format))
    &&& e[4] == ("identifier"@, JsonView::Text(c.stable_id()))
    &&& e[5].0 == "identifiers"@
    &&& writes_map(e[5].1, c.identifier_set())
    &&& e[6] == ("image"@, JsonView::Text(c.image))
    &&& e[7].0 == "labels"@
    &&& writes_map(e[7].1, c.labels)
    &&& e[8] == ("namespace"@, JsonView::Text(c.namespace))
    &&& e[9] == ("service_name"@, JsonView::Text(c.service_name))
    &&& e[10] == ("stable_instance_id"@, JsonView::Text(c.stable_instance_id()))
    &&& e[11] == ("state"@, JsonView::Text(c.state))
}

/// What borrowed containers are.
pub open spec fn ref_views(v: Seq<&Container>) -> Seq<ContainerView> {
    v.map_values(|c: &Container| c@)
}

/// The entry of a workload that nobody named a service, with its instances.
pub fn container_census_entry(c: &Container, active_instances: &Vec<&Container>) -> (r: Json)
    ensures
        is_container_entry(r@, c@, ref_views(active_instances@)),
{
    let mut instances: Vec<Json> = Vec::new();
    let mut i: usize = 0;
    while i < active_instances.len()
        invariant
            i <= active_instances@.len(),
            instances@.len() == i,
            forall|j: int|
                0 <= j < i ==> is_instance_entry(
                    (#[trigger] instances@[j])@,
                    active_instances@[j]@,
                ),
        decreases active_instances.len() - i,
    {
        instances.push(instance_entry(active_instances[i]));
        i = i + 1;
    }
    let ghost list = views(instances@);
    let active = Json::array(instances);
    assert forall|j: int| 0 <= j < list.len() implies is_instance_entry(
        #[trigger] list[j],
        ref_views(active_instances@)[j],
    ) by {
        assert(is_instance_entry(instances@[j]@, active_instances@[j]@));
    }
    let identifiers = map_object(&c.identifier_set());
    let labels = map_object(&c.labels);
    let mut e: Vec<(String, Json)> = Vec::new();
    e.push(entry("active_instances", active));
    e.push(entry("container_name", Json::text(c.name.as_str())));
    e.push(entry("deployment", Json::text(c.deployment.as_str())));
    e.push(entry("format", Json::text(c.log_format.as_str())));
    e.push(entry("identifier", Json::text(c.stable_id().as_str())));
    e.push(entry("identifiers", identifiers));
    e.push(entry("image", Json::text(c.image.as_str())));
    e.push(entry("labels", labels));
    e.push(entry("namespace", Json::text(c.namespace.as_str())));
    e.push(entry("service_name", Json::text(c.service_name.as_str())));
    e.push(entry("stable_instance_id", Json::text(c.stable_instance_id().as_str())));
    e.push(entry("state", Json::text(c.state.as_str())));
    Json::object(e)
}

/// Whether a container is a running instance of a workload that nobody named a
/// service.
pub open spec fn is_live_instance(c: ContainerView, workload: Seq<char>) -> bool {
    !c.explicit_service() && c.state == "running"@ && c.stable_id() == workload
}

/// What containers are.
pub open spec fn container_views(v: Seq<Container>) -> Seq<ContainerView> {
    v.map_values(|c: Container| c@)
}

/// What an instance is sorted by: its stable id, then its place in the scan.
pub open spec fn instance_key(discovered: Seq<ContainerView>, at: int) -> SortKey {
    SortKey {
        major: 0,
        first: discovered[at].stable_instance_id(),
        second: seq![],
        third: seq![],
        minor: at,
    }
}

/// Whether a list of places is that of the running instances of a workload, in
/// the order of their stable ids.
pub open spec fn instance_order(
    discovered: Seq<ContainerView>,
    workload: Seq<char>,
    places: Seq<int>,
) -> bool {
    &&& forall|i: int, j: int|
        0 <= i < j < places.len() ==> key_less(
            instance_key(discovered, #[trigger] places[i]),
            instance_key(discovered, #[trigger] places[j]),
        )
    &&& forall|i: int|
        0 <= i < places.len() ==> 0 <= #[trigger] places[i] < discovered.len()
            && is_live_instance(discovered[places[i]], workload)
    &&& forall|at: int|
        0 <= at < discovered.len() && is_live_instance(#[trigger] discovered[at], workload)
            ==> places.contains(at)
}

struct Instance {
    id: String,
    at: usize,
}

impl Sortable for Instance {
    closed spec fn sort_key(&self) -> SortKey {
        SortKey { major: 0, first: self.id@, second: seq![], third: seq![], minor: self.at as int }
    }

    fn precedes(&self, other: &Self) -> (r: bool) {
        proof {
            lemma_lex_irreflexive(self.id@);
        }
        if str_eq(self.id.as_str(), other.id.as_str()) {
            self.at < other.at
        } else {
            str_less(self.id.as_str(), other.id.as_str())
        }
    }
}

fn instance_places(workload: &str, discovered: &Vec<Container>) -> (r: Vec<usize>)
    ensures
        instance_order(
            container_views(discovered@),
            workload@,
            r@.map_values(|at: usize| at as int),
        ),
        forall|i: int| 0 <= i < r@.len() ==> (#[trigger] r@[i]) < discovered@.len(),
{
    let ghost all = container_views(discovered@);
    let mut found: Vec<Instance> = Vec::new();
    let mut i: usize = 0;
    while i < discovered.len()
        invariant
            i <= discovered@.len(),
            all == container_views(discovered@),
            forall|j: int|
                0 <= j < found@.len() ==> {
                    &&& (#[trigger] found@[j]).at < i
                    &&& is_live_instance(all[found@[j].at as int], workload@)
                    &&& found@[j].id@ == all[found@[j].at as int].stable_instance_id()
                },
            forall|at: int|
                0 <= at < i && is_live_instance(#[trigger] all[at], workload@) ==> holds_place(
                    found@,
                    at,
                ),
        decreases discovered.len() - i,
    {
        let c = &discovered[i];
        let ghost before = found@;
        assert(all[i as int] == c@);
        if !c.explicit_service() && str_eq(c.state.as_str(), "running") && str_eq(
            c.stable_id().as_str(),
            workload,
        ) {
            found.push(Instance { id: c.stable_instance_id(), at: i });
            proof {
                assert(found@[before.len() as int].at == i);
                assert(holds_place(found@, i as int));
            }
        }
        proof {
            assert forall|at: int|
                0 <= at < i + 1 && is_live_instance(
                    #[trigger] all[at],
                    workload@,
                ) implies holds_place(found@, at) by {
                if at < i {
                    assert(holds_place(before, at));
                    let k = choose|k: int| 0 <= k < before.len() && (#[trigger] before[k]).at == at;
                    assert(found@[k].at == at);
                }
            }
        }
        i = i + 1;
    }
    let ghost items = found@;
    let sorted = sorted_unique(found);
    let mut out: Vec<usize> = Vec::new();
    let mut i: usize = 0;
    while i < sorted.len()
        invariant
            i <= sorted@.len(),
            out@.len() == i,
            forall|j: int| 0 <= j < i ==> #[trigger] out@[j] == sorted@[j].at,
        decreases sorted.len() - i,
    {
        out.push(sorted[i].at);
        i = i + 1;
    }
    proof {
        let places = out@.map_values(|at: usize| at as int);
        assert forall|j: int| 0 <= j < sorted@.len() implies {
            &&& (#[trigger] sorted@[j]).at < discovered@.len()
            &&& is_live_instance(all[sorted@[j].at as int], workload@)
            &&& sorted@[j].sort_key() == instance_key(all, sorted@[j].at as int)
        } by {
            assert(crate::order::is_first(items, sorted@[j]));
            let at = choose|at: int|
                #[trigger] crate::order::first_with_key(items, at) && items[at] == sorted@[j];
            assert(items[at].at < discovered@.len());
        }
        assert forall|a: int, b: int| 0 <= a < b < places.len() implies key_less(
            instance_key(all, #[trigger] places[a]),
            instance_key(all, #[trigger] places[b]),
        ) by {
            assert(places[a] == sorted@[a].at && places[b] == sorted@[b].at);
            assert(key_less(sorted@[a].sort_key(), sorted@[b].sort_key()));
        }
        assert forall|a: int| 0 <= a < places.len() implies 0 <= #[trigger] places[a] < all.len()
            && is_live_instance(all[places[a]], workload@) by {
            assert(places[a] == sorted@[a].at);
        }
        assert forall|at: int|
            0 <= at < all.len() && is_live_instance(
                #[trigger] all[at],
                workload@,
            ) implies places.contains(at) by {
            assert(holds_place(items, at));
            let k = choose|k: int| 0 <= k < items.len() && (#[trigger] items[k]).at == at;
            assert(crate::order::has_key(sorted@, items[k].sort_key()));
            let n = choose|n: int|
                0 <= n < sorted@.len() && #[trigger] sorted@[n].sort_key()
                    == items[k].sort_key();
            assert(sorted@[n].at == at);
            assert(places[n] == at);
        }
    }
    out
}

spec fn holds_place(found: Seq<Instance>, at: int) -> bool {
    exists|k: int| 0 <= k < found.len() && (#[trigger] found[k]).at == at
}

/// The containers at places of a scan.
pub open spec fn at_places(discovered: Seq<ContainerView>, places: Seq<int>) -> Seq<ContainerView> {
    places.map_values(|at: int| discovered[at])
}

/// Whether a list is that of the running instances of a workload, in the order of
/// their stable ids.
pub open spec fn are_instances(
    discovered: Seq<ContainerView>,
    workload: Seq<char>,
    instances: Seq<ContainerView>,
) -> bool {
    exists|places: Seq<int>| #[trigger]
        instance_order(discovered, workload, places) && instances == at_places(discovered, places)
}

/// The running instances of the workload that an entry stands for, from the same
/// scan. What has exited is no instance.
pub fn workload_instances<'a>(entry: &Container, discovered: &'a Vec<Container>) -> (r: Vec<
    &'a Container,
>)
    ensures
        are_instances(container_views(discovered@), entry@.stable_id(), ref_views(r@)),
{
    let workload = entry.stable_id();
    let places = instance_places(workload.as_str(), discovered);
    let ghost at = places@.map_values(|at: usize| at as int);
    let mut out: Vec<&'a Container> = Vec::new();
    let mut i: usize = 0;
    while i < places.len()
        invariant
            i <= places@.len(),
            forall|k: int| 0 <= k < places@.len() ==> (#[trigger] places@[k]) < discovered@.len(),
            out@.len() == i,
            forall|k: int|
                0 <= k < i ==> (#[trigger] out@[k])@ == discovered@[places@[k] as int]@,
        decreases places.len() - i,
    {
        out.push(&discovered[places[i]]);
        i = i + 1;
    }
    assert(ref_views(out@) =~= at_places(container_views(discovered@), at));
    out
}

// ---------------------------------------------------------------------------
// Laws
// ---------------------------------------------------------------------------

proof fn lemma_no_key(entries: Seq<(Seq<char>, JsonView)>, key: Seq<char>)
    requires
        forall|i: int| 0 <= i < entries.len() ==> (#[trigger] entries[i]).0 != key,
    ensures
        JsonView::Object(entries).get(key) is None,
{
    lemma_key_place_at(entries, key, entries.len() as int);
}

/// No handle of one run leaves the host: neither the id of a container nor that
/// of a pod, neither the name of a pod nor a process, is ever reported, in
/// whichever lane.
pub proof fn handles_stay_local(v: JsonView, c: ContainerView, instances: Seq<ContainerView>)
    requires
        is_service_entry(v, c) || is_container_entry(v, c, instances),
    ensures
        v.get("container_id"@) is None,
        v.get("pod_id"@) is None,
        v.get("pod_name"@) is None,
        v.get("runtime_process"@) is None,
{
    reveal_strlit("container_id");
    reveal_strlit("pod_id");
    reveal_strlit("pod_name");
    reveal_strlit("runtime_process");
    reveal_strlit("active_instances");
    reveal_strlit("container_name");
    reveal_strlit("deployment");
    reveal_strlit("format");
    reveal_strlit("identifier");
    reveal_strlit("identifiers");
    reveal_strlit("image");
    reveal_strlit("labels");
    reveal_strlit("namespace");
    reveal_strlit("service_name");
    reveal_strlit("service_name_explicit");
    reveal_strlit("stable_instance_id");
    reveal_strlit("state");
    let e = v->Object_0;
    assert("container_id"@[11] == 'd');
    assert("container_name"@.len() == 14);
    assert("pod_name"@[0] == 'p' && "pod_id"@[0] == 'p' && "runtime_process"@[0] == 'r');
    assert("active_instances"@[0] == 'a' && "container_name"@[0] == 'c' && "deployment"@[0] == 'd'
        && "format"@[0] == 'f' && "identifier"@[0] == 'i' && "identifiers"@[0] == 'i'
        && "image"@[0] == 'i' && "labels"@[0] == 'l' && "namespace"@[0] == 'n'
        && "service_name"@[0] == 's' && "service_name_explicit"@[0] == 's'
        && "stable_instance_id"@[0] == 's' && "state"@[0] == 's');
    assert("container_id"@.len() == 12 && "container_id"@[0] == 'c');
    assert forall|i: int| 0 <= i < e.len() implies {
        &&& (#[trigger] e[i]).0 != "container_id"@
        &&& e[i].0 != "pod_id"@
        &&& e[i].0 != "pod_name"@
        &&& e[i].0 != "runtime_process"@
    } by {
        if e.len() == 11 {
            assert(i == 0 || i == 1 || i == 2 || i == 3 || i == 4 || i == 5 || i == 6 || i == 7 || i
                == 8 || i == 9 || i == 10);
        } else {
            assert(i == 0 || i == 1 || i == 2 || i == 3 || i == 4 || i == 5 || i == 6 || i == 7 || i
                == 8 || i == 9 || i == 10 || i == 11);
        }
    }
    lemma_no_key(e, "container_id"@);
    lemma_no_key(e, "pod_id"@);
    lemma_no_key(e, "pod_name"@);
    lemma_no_key(e, "runtime_process"@);
}

/// Every running instance of a workload is listed, just once.
pub proof fn every_instance_is_listed_once(
    discovered: Seq<ContainerView>,
    workload: Seq<char>,
    places: Seq<int>,
    at: int,
)
    requires
        instance_order(discovered, workload, places),
        0 <= at < discovered.len(),
        is_live_instance(discovered[at], workload),
    ensures
        exists|i: int| 0 <= i < places.len() && #[trigger] places[i] == at,
        forall|i: int, j: int|
            0 <= i < places.len() && 0 <= j < places.len() && #[trigger] places[i] == at
                && #[trigger] places[j] == at ==> i == j,
{
    assert(places.contains(at));
    assert forall|i: int, j: int|
        0 <= i < places.len() && 0 <= j < places.len() && #[trigger] places[i] == at
            && #[trigger] places[j] == at implies i == j by {
        crate::order::lemma_key_irreflexive(instance_key(discovered, at));
        if i < j {
            assert(key_less(
                instance_key(discovered, places[i]),
                instance_key(discovered, places[j]),
            ));
        } else if j < i {
            assert(key_less(
                instance_key(discovered, places[j]),
                instance_key(discovered, places[i]),
            ));
        }
    }
}

/// A payload of changes has no mark at all, and a full one has the mark.
pub proof fn full_reports_are_marked(entries: Seq<(Seq<char>, JsonView)>)
    ensures
        stamped(JsonView::Object(entries), false) == JsonView::Object(entries),
        stamped(JsonView::Object(entries), true).get("full_report"@) == Some(JsonView::Bool(true)),
{
    lemma_with_entry(entries, "full_report"@, JsonView::Bool(true));
}

proof fn lemma_with_entry(entries: Seq<(Seq<char>, JsonView)>, key: Seq<char>, value: JsonView)
    ensures
        JsonView::Object(with_entry(entries, key, value)).get(key) == Some(value),
    decreases entries.len(),
{
    let out = with_entry(entries, key, value);
    if entries.len() == 0 || lex_less(key, entries[0].0) || entries[0].0 == key {
        lemma_key_place_at(out, key, 0);
    } else {
        let rest = entries.skip(1);
        let tail = with_entry(rest, key, value);
        lemma_with_entry(rest, key, value);
        assert(out[0] == entries[0]);
        assert(out.skip(1) =~= tail);
        assert(key_place(out, key) == 1 + key_place(tail, key));
        assert(out[1 + key_place(tail, key)] == tail[key_place(tail, key)]) by {
            lemma_place_bounds(tail, key);
        }
    }
}

proof fn lemma_place_bounds(entries: Seq<(Seq<char>, JsonView)>, key: Seq<char>)
    ensures
        0 <= key_place(entries, key) <= entries.len(),
    decreases entries.len(),
{
    if entries.len() > 0 && entries[0].0 != key {
        lemma_place_bounds(entries.skip(1), key);
    }
}

} // verus!
