//! What a CRI runtime tells of its containers, said of its listings and records.
use vstd::prelude::*;
use vstd::string::*;

use crate::discovery::container::RuntimeProcessIdentity;
use crate::discovery::cri::{
    agreed_pid, all_records, cri_container_view, cri_state, endpoint_path, init_pid, init_record,
    listed_container, listed_containers, listed_sandbox, listed_sandboxes, local_endpoint,
    pid_of_value, records_in, running_id, sandbox_of, sandbox_place, state_of_cases, ListedView,
    SandboxView,
};
use crate::discovery::crictl::{
    failed_singles, identities, missing_id, with_singles, SingleInspection,
};
use crate::json::JsonView;
use crate::laws::text::{numbers_are_read_as_written, trimming_takes_white_space_off};
use crate::outline::{at_most_once, last_value, text_members, OutlineView};
use crate::text::{decimal, is_white, lower_case, upper_case};

verus! {

// ---------------------------------------------------------------------------
// Endpoints
// ---------------------------------------------------------------------------

/// A configured endpoint names the path behind `unix://`, or is itself a path. What is no
/// path from the root names none.
pub proof fn endpoints_name_paths(path: Seq<char>, other: Seq<char>)
    requires
        path.len() > 0,
        path[0] == '/',
        !is_white(path.last()),
        other.len() > 0,
        other[0] != '/',
        other[0] != 'u',
        !is_white(other[0]),
        !is_white(other.last()),
    ensures
        endpoint_path(seq!['u', 'n', 'i', 'x', ':', '/', '/'] + path) == Some(path),
        endpoint_path(path) == Some(path),
        endpoint_path(seq![' '] + path + seq!['\n']) == Some(path),
        endpoint_path(other) is None,
        endpoint_path(seq!['u', 'n', 'i', 'x', ':', '/', '/'] + other) is None,
{
    reveal_strlit("unix://");
    reveal_strlit("/");
    let scheme = seq!['u', 'n', 'i', 'x', ':', '/', '/'];
    assert("unix://"@ =~= scheme && "/"@ =~= seq!['/']);
    let none = Seq::<char>::empty();
    trimming_takes_white_space_off(none, path, none);
    trimming_takes_white_space_off(none, scheme + path, none);
    trimming_takes_white_space_off(seq![' '], path, seq!['\n']);
    trimming_takes_white_space_off(none, other, none);
    trimming_takes_white_space_off(none, scheme + other, none);
    assert(none + path + none =~= path);
    assert(none + (scheme + path) + none =~= scheme + path);
    assert(none + other + none =~= other);
    assert(none + (scheme + other) + none =~= scheme + other);
    assert((scheme + path).skip(7) =~= path && (scheme + other).skip(7) =~= other);
    assert(scheme.is_prefix_of(scheme + path) && scheme.is_prefix_of(scheme + other));
    assert(scheme[0] == 'u');
    assert(!scheme.is_prefix_of(path)) by {
        if scheme.is_prefix_of(path) {
            assert(path[0] == scheme[0]);
        }
    }
    assert(!scheme.is_prefix_of(other)) by {
        if scheme.is_prefix_of(other) {
            assert(other[0] == scheme[0]);
        }
    }
    assert(seq!['/'].is_prefix_of(path));
    assert(!seq!['/'].is_prefix_of(other)) by {
        if seq!['/'].is_prefix_of(other) {
            assert(other[0] == seq!['/'][0]);
        }
    }
}

/// The runtime is reached over the socket that is configured, and over no other if that is
/// not there; without a configured one over the first of the three usual ones that is.
pub proof fn sockets_are_tried_in_turn(configured: Seq<char>, sockets: Seq<Seq<char>>)
    ensures
        ({
            let containerd = "/run/containerd/containerd.sock"@;
            let crio = "/run/crio/crio.sock"@;
            let dockerd = "/var/run/cri-dockerd.sock"@;
            &&& endpoint_path(configured) is Some && sockets.contains(endpoint_path(configured)->0)
                ==> local_endpoint(Some(configured), sockets) == Some(
                "unix://"@ + endpoint_path(configured)->0,
            )
            &&& endpoint_path(configured) is None || !sockets.contains(endpoint_path(configured)->0)
                ==> local_endpoint(Some(configured), sockets) is None
            &&& sockets.contains(containerd) ==> local_endpoint(None, sockets) == Some(
                "unix://"@ + containerd,
            )
            &&& !sockets.contains(containerd) && sockets.contains(crio) ==> local_endpoint(
                None,
                sockets,
            ) == Some("unix://"@ + crio)
            &&& !sockets.contains(containerd) && !sockets.contains(crio) && sockets.contains(
                dockerd,
            ) ==> local_endpoint(None, sockets) == Some("unix://"@ + dockerd)
            &&& !sockets.contains(containerd) && !sockets.contains(crio) && !sockets.contains(
                dockerd,
            ) ==> local_endpoint(None, sockets) is None
        }),
{
    let all = crate::discovery::cri::default_sockets();
    reveal_with_fuel(crate::discovery::cri::first_socket, 5);
    assert(all.skip(1)[0] == all[1]);
    assert(all.skip(1).skip(1)[0] == all[2]);
    assert(all.skip(1).skip(1).skip(1).len() == 0);
}

// ---------------------------------------------------------------------------
// States
// ---------------------------------------------------------------------------

/// The four states that CRI knows have their names, with and without the prefix; any other
/// keeps its own in small letters.
pub proof fn states_have_their_names(upper: Seq<char>, lower: Seq<char>)
    ensures
        state_of_cases("RUNNING"@, lower) == "running"@,
        state_of_cases("CONTAINER_RUNNING"@, lower) == "running"@,
        state_of_cases("EXITED"@, lower) == "exited"@,
        state_of_cases("CONTAINER_EXITED"@, lower) == "exited"@,
        state_of_cases("CREATED"@, lower) == "created"@,
        state_of_cases("CONTAINER_CREATED"@, lower) == "created"@,
        state_of_cases("UNKNOWN"@, lower) == "unknown"@,
        state_of_cases("CONTAINER_UNKNOWN"@, lower) == "unknown"@,
        upper != "RUNNING"@ && upper != "CONTAINER_RUNNING"@ && upper != "EXITED"@ && upper
            != "CONTAINER_EXITED"@ && upper != "CREATED"@ && upper != "CONTAINER_CREATED"@ && upper
            != "UNKNOWN"@ && upper != "CONTAINER_UNKNOWN"@ ==> state_of_cases(upper, lower) == lower,
        upper_case(lower) == "RUNNING"@ ==> cri_state(lower) == "running"@,
        upper_case(lower) == "PAUSED"@ ==> cri_state(lower) == lower_case(lower),
{
    reveal_strlit("RUNNING");
    reveal_strlit("CONTAINER_RUNNING");
    reveal_strlit("EXITED");
    reveal_strlit("CONTAINER_EXITED");
    reveal_strlit("CREATED");
    reveal_strlit("CONTAINER_CREATED");
    reveal_strlit("UNKNOWN");
    reveal_strlit("CONTAINER_UNKNOWN");
    reveal_strlit("PAUSED");
    assert("RUNNING"@.len() == 7 && "CONTAINER_RUNNING"@.len() == 17 && "EXITED"@.len() == 6
        && "CONTAINER_EXITED"@.len() == 16 && "CREATED"@.len() == 7 && "CONTAINER_CREATED"@.len()
        == 17 && "UNKNOWN"@.len() == 7 && "CONTAINER_UNKNOWN"@.len() == 17 && "PAUSED"@.len() == 6);
    assert("RUNNING"@[0] == 'R' && "CREATED"@[0] == 'C' && "UNKNOWN"@[0] == 'U' && "EXITED"@[0]
        == 'E' && "PAUSED"@[0] == 'P');
    assert("CONTAINER_RUNNING"@[10] == 'R' && "CONTAINER_CREATED"@[10] == 'C'
        && "CONTAINER_UNKNOWN"@[10] == 'U');
}

// ---------------------------------------------------------------------------
// Listings
// ---------------------------------------------------------------------------

/// Whether a member is a text, or is absent or null.
pub open spec fn says(
    members: Seq<(Seq<char>, OutlineView)>,
    key: Seq<char>,
    text: Option<Seq<char>>,
) -> bool {
    &&& at_most_once(members, key)
    &&& match text {
        Some(t) => last_value(members, key) == Some(OutlineView::Text(t)),
        None => last_value(members, key) is None || last_value(members, key) == Some(
            OutlineView::Null,
        ),
    }
}

/// A listed container is read from the members that hold its id, sandbox, name, image,
/// state and labels; each may be missing.
pub proof fn listed_containers_are_read(
    members: Seq<(Seq<char>, OutlineView)>,
    meta: Seq<(Seq<char>, OutlineView)>,
    labels: Seq<(Seq<char>, OutlineView)>,
    c: ListedView,
)
    requires
        says(members, "id"@, c.id),
        says(members, "podSandboxId"@, c.pod_sandbox_id),
        says(members, "imageRef"@, c.image_ref),
        says(members, "state"@, c.state),
        at_most_once(members, "metadata"@),
        at_most_once(members, "labels"@),
        last_value(members, "metadata"@) == Some(OutlineView::Members(meta)),
        says(meta, "name"@, c.name),
        last_value(members, "labels"@) == Some(OutlineView::Members(labels)),
        text_members(labels) == Some(c.labels),
    ensures
        listed_container(OutlineView::Members(members)) == Some(c),
{
    let fields = crate::discovery::cri::container_fields();
    assert(fields[0] == "id"@ && fields[1] == "podSandboxId"@ && fields[2] == "metadata"@
        && fields[3] == "imageRef"@ && fields[4] == "state"@ && fields[5] == "labels"@);
    let names = crate::discovery::cri::container_metadata_fields();
    assert(names[0] == "name"@);
    assert(OutlineView::Members(members).is_record(fields));
    assert(OutlineView::Members(meta).is_record(names));
    let r = listed_container(OutlineView::Members(members));
    assert(r is Some);
    assert(r->0 =~= c);
}

/// A container whose id is no text, or is written twice, makes its listing faulty.
pub proof fn faulty_containers_are_not_read(members: Seq<(Seq<char>, OutlineView)>)
    ensures
        last_value(members, "id"@) == Some(OutlineView::Other) ==> listed_container(
            OutlineView::Members(members),
        ) is None,
        last_value(members, "state"@) == Some(OutlineView::Other) ==> listed_container(
            OutlineView::Members(members),
        ) is None,
        !at_most_once(members, "id"@) ==> listed_container(OutlineView::Members(members)) is None,
        listed_container(OutlineView::Null) is None,
        listed_container(OutlineView::Other) is None,
{
    let fields = crate::discovery::cri::container_fields();
    assert(fields[0] == "id"@ && fields[4] == "state"@);
}

/// A listed sandbox is read from the members that hold its id and its pod's namespace,
/// name and uid; what is missing is empty.
pub proof fn listed_sandboxes_are_read(
    members: Seq<(Seq<char>, OutlineView)>,
    meta: Seq<(Seq<char>, OutlineView)>,
    s: SandboxView,
)
    requires
        says(members, "id"@, Some(s.id)),
        at_most_once(members, "metadata"@),
        last_value(members, "metadata"@) == Some(OutlineView::Members(meta)),
        says(meta, "namespace"@, Some(s.namespace)),
        says(meta, "name"@, Some(s.pod_name)),
        says(meta, "uid"@, Some(s.pod_uid)),
    ensures
        listed_sandbox(OutlineView::Members(members)) == Some(s),
{
    let fields = crate::discovery::cri::sandbox_fields();
    assert(fields[0] == "id"@ && fields[1] == "metadata"@);
    let names = crate::discovery::cri::sandbox_metadata_fields();
    assert(names[0] == "namespace"@ && names[1] == "name"@ && names[2] == "uid"@);
    assert(OutlineView::Members(members).is_record(fields));
    assert(OutlineView::Members(meta).is_record(names));
    let r = listed_sandbox(OutlineView::Members(members));
    assert(r is Some);
    assert(r->0 =~= s);
}

/// Containers are listed under `containers` and sandboxes under `items`, one for each entry
/// and in order; one faulty entry makes the listing faulty.
pub proof fn listings_have_their_key(
    members: Seq<(Seq<char>, OutlineView)>,
    items: Seq<OutlineView>,
    i: int,
)
    ensures
        at_most_once(members, "containers"@) && last_value(members, "containers"@) == Some(
            OutlineView::Items(items),
        ) ==> {
            let r = listed_containers(OutlineView::Members(members));
            &&& 0 <= i < items.len() && listed_container(items[i]) is None ==> r is None
            &&& r is Some ==> r->0.len() == items.len()
            &&& r is Some && 0 <= i < items.len() ==> listed_container(items[i]) == Some(r->0[i])
        },
        at_most_once(members, "items"@) && last_value(members, "items"@) == Some(
            OutlineView::Items(items),
        ) ==> {
            let r = listed_sandboxes(OutlineView::Members(members));
            &&& 0 <= i < items.len() && listed_sandbox(items[i]) is None ==> r is None
            &&& r is Some ==> r->0.len() == items.len()
            &&& r is Some && 0 <= i < items.len() ==> listed_sandbox(items[i]) == Some(r->0[i])
        },
        at_most_once(members, "containers"@) && last_value(members, "containers"@) is None
            ==> listed_containers(OutlineView::Members(members)) == Some(Seq::<ListedView>::empty()),
        at_most_once(members, "items"@) && last_value(members, "items"@) is None
            ==> listed_sandboxes(OutlineView::Members(members)) == Some(
            Seq::<SandboxView>::empty(),
        ),
{
    assert(seq!["containers"@][0] == "containers"@ && seq!["items"@][0] == "items"@);
    let f = |item: OutlineView| listed_container(item);
    let g = |item: OutlineView| listed_sandbox(item);
    if 0 <= i < items.len() {
        assert(f(items[i]) == listed_container(items[i]));
        assert(g(items[i]) == listed_sandbox(items[i]));
    }
    let m = OutlineView::Members(members);
    if at_most_once(members, "containers"@) {
        assert(m.is_record(seq!["containers"@]));
        if last_value(members, "containers"@) is None {
            assert(listed_containers(m)->0 =~= Seq::<ListedView>::empty());
        }
    }
    if at_most_once(members, "items"@) {
        assert(m.is_record(seq!["items"@]));
        if last_value(members, "items"@) is None {
            assert(listed_sandboxes(m)->0 =~= Seq::<SandboxView>::empty());
        }
    }
}

// ---------------------------------------------------------------------------
// Containers
// ---------------------------------------------------------------------------

/// A container runs in the last sandbox of the id that it names; one that is not listed has
/// no pod.
pub proof fn containers_run_in_their_sandbox(
    before: Seq<SandboxView>,
    s: SandboxView,
    after: Seq<SandboxView>,
)
    requires
        forall|i: int| 0 <= i < after.len() ==> (#[trigger] after[i]).id != s.id,
    ensures
        sandbox_of(before + seq![s] + after, Some(s.id)) == s,
        sandbox_of(after, Some(s.id)).pod_name.len() == 0,
        sandbox_of(after, Some(s.id)).namespace.len() == 0,
        sandbox_of(after, Some(s.id)).pod_uid.len() == 0,
        sandbox_of(before, None).pod_name.len() == 0,
    decreases after.len(),
{
    let all = before + seq![s] + after;
    if after.len() > 0 {
        assert(all.last() == after.last());
        assert(after[after.len() - 1].id != s.id);
        assert(all.drop_last() =~= before + seq![s] + after.drop_last());
        assert forall|i: int| 0 <= i < after.drop_last().len() implies (
        #[trigger] after.drop_last()[i]).id != s.id by {
            assert(after[i].id != s.id);
        }
        containers_run_in_their_sandbox(before, s, after.drop_last());
        lemma_sandbox_place(before + seq![s] + after.drop_last(), s.id);
        lemma_sandbox_place(after.drop_last(), s.id);
    } else {
        assert(all.last() == s);
        assert(all[all.len() - 1] == s);
    }
}

proof fn lemma_sandbox_place(sandboxes: Seq<SandboxView>, id: Seq<char>)
    ensures
        -1 <= sandbox_place(sandboxes, id) < sandboxes.len(),
        sandbox_place(sandboxes, id) >= 0 ==> sandboxes[sandbox_place(sandboxes, id)].id == id,
    decreases sandboxes.len(),
{
    if sandboxes.len() > 0 && sandboxes.last().id != id {
        lemma_sandbox_place(sandboxes.drop_last(), id);
    }
}

/// A listed container keeps what the listing says of it and has its sandbox's pod. Its
/// init process counts only while it runs, and it opts in by its label alone.
pub proof fn containers_are_what_is_listed(
    c: ListedView,
    sandboxes: Seq<SandboxView>,
    processes: Map<Seq<char>, RuntimeProcessIdentity>,
    id: Seq<char>,
    name: Seq<char>,
    state: Seq<char>,
)
    requires
        c.id == Some(id),
        c.name == Some(name),
        c.state == Some(state),
    ensures
        ({
            let r = cri_container_view(c, sandboxes, processes);
            let key = "LOGPACER_SERVICE_NAME"@;
            &&& r.id == id && r.container_id == id
            &&& r.name == name && r.container_name == name
            &&& r.state == cri_state(state)
            &&& c.image_ref is Some ==> r.image == c.image_ref->0
            &&& c.image_ref is None ==> r.image.len() == 0
            &&& r.labels == c.labels
            &&& r.runtime == "containerd"@
            &&& r.pod_name == sandbox_of(sandboxes, c.pod_sandbox_id).pod_name
            &&& r.pod_uid == sandbox_of(sandboxes, c.pod_sandbox_id).pod_uid
            &&& r.namespace == sandbox_of(sandboxes, c.pod_sandbox_id).namespace
            &&& c.labels.contains_key(key) && c.labels[key].len() > 0 ==> r.service_name
                == c.labels[key] && r.service_name_explicit
            &&& !c.labels.contains_key(key) || c.labels[key].len() == 0 ==> r.service_name == name
                && !r.service_name_explicit
            &&& cri_state(state) == "running"@ && processes.contains_key(id) ==> r.runtime_process
                == Some(processes[id])
            &&& cri_state(state) != "running"@ ==> r.runtime_process is None
            &&& !processes.contains_key(id) ==> r.runtime_process is None
            &&& r.env.len() == 0 && r.log_path.len() == 0 && r.deployment.len() == 0
                && r.workload_kind.len() == 0 && r.node_name.len() == 0
        }),
{
}

/// Just the running containers that have an id are inspected.
pub proof fn running_containers_are_inspected(c: ListedView, id: Seq<char>, state: Seq<char>)
    requires
        c.id == Some(id),
        c.state == Some(state),
    ensures
        cri_state(state) == "running"@ && id.len() > 0 ==> running_id(c) == Some(id),
        cri_state(state) != "running"@ ==> running_id(c) is None,
        id.len() == 0 ==> running_id(c) is None,
{
}

// ---------------------------------------------------------------------------
// Init processes
// ---------------------------------------------------------------------------

/// A process id is written as a number or as a text, with white space around it or
/// without; zero and what does not fit is none.
pub proof fn process_ids_are_read(n: u64, other: JsonView)
    ensures
        0 < n <= 0xffff_ffff ==> pid_of_value(JsonView::Unsigned(n)) == Some(n as u32),
        n > 0xffff_ffff || n == 0 ==> pid_of_value(JsonView::Unsigned(n)) is None,
        0 < n <= 0xffff_ffff ==> pid_of_value(JsonView::Text(decimal(n as nat))) == Some(n as u32),
        0 < n <= 0xffff_ffff ==> pid_of_value(
            JsonView::Text(seq![' '] + decimal(n as nat) + seq!['\n']),
        ) == Some(n as u32),
        n > 0xffff_ffff || n == 0 ==> pid_of_value(JsonView::Text(decimal(n as nat))) is None,
        !(other is Unsigned) && !(other is Text) ==> pid_of_value(other) is None,
{
    let d = decimal(n as nat);
    let none = Seq::<char>::empty();
    crate::laws::text::decimal_digits_write_the_number(n as nat);
    crate::laws::text::white_space_is_known(d[0]);
    crate::laws::text::white_space_is_known(d[d.len() - 1]);
    assert(d.last() == d[d.len() - 1]);
    trimming_takes_white_space_off(none, d, none);
    trimming_takes_white_space_off(seq![' '], d, seq!['\n']);
    assert(none + d + none =~= d);
    numbers_are_read_as_written(n as nat, u32::MAX as nat);
}

/// The init process of a record is the one under `info`, or the one of the record itself;
/// where both are given they have to agree.
pub proof fn records_give_their_process(record: JsonView, info: JsonView, x: JsonView, y: JsonView)
    requires
        record.get("info"@) == Some(info),
        !(x is Null),
        !(y is Null),
    ensures
        info.get("pid"@) == Some(x) && record.get("pid"@) is None ==> init_pid(record)
            == pid_of_value(x),
        info.get("pid"@) is None && record.get("pid"@) == Some(y) ==> init_pid(record)
            == pid_of_value(y),
        info.get("pid"@) == Some(JsonView::Null) && record.get("pid"@) == Some(y) ==> init_pid(
            record,
        ) == pid_of_value(y),
        info.get("pid"@) == Some(x) && record.get("pid"@) == Some(y) && pid_of_value(x)
            == pid_of_value(y) ==> init_pid(record) == pid_of_value(x),
        info.get("pid"@) == Some(x) && record.get("pid"@) == Some(y) && pid_of_value(x)
            != pid_of_value(y) ==> init_pid(record) is None,
        info.get("pid"@) is None && record.get("pid"@) is None ==> init_pid(record) is None,
{
}

/// A record counts if its status names a container, which runs, and if it gives a process.
pub proof fn records_of_running_containers_count(
    record: JsonView,
    status: JsonView,
    id: Seq<char>,
    state: Seq<char>,
)
    requires
        record.get("status"@) == Some(status),
        status.get("id"@) == Some(JsonView::Text(id)),
        status.get("state"@) == Some(JsonView::Text(state)),
    ensures
        id.len() > 0 && cri_state(state) == "running"@ && init_pid(record) is Some ==> init_record(
            record,
        ) == Some((id, init_pid(record)->0)),
        cri_state(state) != "running"@ ==> init_record(record) is None,
        id.len() == 0 ==> init_record(record) is None,
        init_pid(record) is None ==> init_record(record) is None,
{
}

/// A container has the process that one record gives if no other gives another; records of
/// other containers do not matter.
pub proof fn records_have_to_agree(
    before: Seq<JsonView>,
    record: JsonView,
    after: Seq<JsonView>,
    id: Seq<char>,
    pid: u32,
    other: u32,
)
    requires
        init_record(record) == Some((id, pid)),
    ensures
        ({
            let all = before + seq![record] + after;
            &&& (forall|i: int|
                0 <= i < before.len() && (init_record(#[trigger] before[i]) matches Some(r) && r.0
                    == id) ==> (init_record(before[i])->0).1 == pid) && (forall|i: int|
                0 <= i < after.len() && (init_record(#[trigger] after[i]) matches Some(r) && r.0
                    == id) ==> (init_record(after[i])->0).1 == pid) ==> agreed_pid(all, id, pid)
            &&& other != pid ==> !agreed_pid(all, id, other)
        }),
{
    let all = before + seq![record] + after;
    let n = before.len() as int;
    assert(all[n] == record);
    if (forall|i: int|
        0 <= i < before.len() && (init_record(#[trigger] before[i]) matches Some(r) && r.0 == id)
            ==> (init_record(before[i])->0).1 == pid) && (forall|i: int|
        0 <= i < after.len() && (init_record(#[trigger] after[i]) matches Some(r) && r.0 == id)
            ==> (init_record(after[i])->0).1 == pid) {
        assert forall|i: int|
            0 <= i < all.len() && (init_record(#[trigger] all[i]) matches Some(r) && r.0
                == id) implies init_record(all[i]) == Some((id, pid)) by {
            if i < n {
                assert(all[i] == before[i]);
            } else if i > n {
                assert(all[i] == after[i - n - 1]);
            }
        }
    }
    if other != pid && agreed_pid(all, id, other) {
        assert(init_record(all[n]) == Some((id, other)));
    }
}

/// The records of a document are the items of an array, or the document itself if it is an
/// object; documents add up in order.
pub proof fn documents_hold_records(
    documents: Seq<JsonView>,
    items: Seq<JsonView>,
    members: Seq<(Seq<char>, JsonView)>,
)
    ensures
        all_records(Seq::<JsonView>::empty()) == Seq::<JsonView>::empty(),
        all_records(documents.push(JsonView::Array(items))) == all_records(documents) + items,
        all_records(documents.push(JsonView::Object(members))) == all_records(documents).push(
            JsonView::Object(members),
        ),
        all_records(documents.push(JsonView::Null)) == all_records(documents),
{
    let a = documents.push(JsonView::Array(items));
    let o = documents.push(JsonView::Object(members));
    let n = documents.push(JsonView::Null);
    assert(a.drop_last() =~= documents && o.drop_last() =~= documents && n.drop_last()
        =~= documents);
    assert(records_in(JsonView::Null) =~= Seq::<JsonView>::empty());
    assert(all_records(o) =~= all_records(documents).push(JsonView::Object(members)));
    assert(all_records(n) =~= all_records(documents));
}

/// What was not told at once is asked for one by one, and only of the container that was
/// asked about; what failed is counted.
pub proof fn single_inspections_add_up(
    pids: Map<Seq<char>, u32>,
    before: Seq<SingleInspection>,
    one: SingleInspection,
    id: Seq<char>,
)
    ensures
        pids.contains_key(id) ==> missing_id(pids, id) is None,
        !pids.contains_key(id) ==> missing_id(pids, id) == Some(id),
        ({
            let was = with_singles(pids, before);
            let now = with_singles(pids, before.push(one));
            &&& one.pids is Some && one.pids->0@.contains_key(one.id@) ==> now.contains_key(one.id@)
                && now[one.id@] == one.pids->0@[one.id@]
            &&& one.pids is None ==> now == was
            &&& one.pids is Some && !one.pids->0@.contains_key(one.id@) ==> now == was
            &&& id != one.id@ ==> now.contains_key(id) == was.contains_key(id)
            &&& id != one.id@ && was.contains_key(id) ==> now[id] == was[id]
            &&& one.pids is None ==> failed_singles(before.push(one)) == failed_singles(before) + 1
            &&& one.pids is Some ==> failed_singles(before.push(one)) == failed_singles(before)
        }),
        with_singles(pids, Seq::<SingleInspection>::empty()) == pids,
        failed_singles(Seq::<SingleInspection>::empty()) == 0,
{
    assert(before.push(one).drop_last() =~= before);
    assert(before.push(one).last() == one);
}

/// A container has the identity that its init process was caught with, and none if that was
/// not caught.
pub proof fn processes_are_identified(
    pids: Map<Seq<char>, u32>,
    captured: Map<u32, RuntimeProcessIdentity>,
    id: Seq<char>,
    pid: u32,
)
    ensures
        pids.contains_key(id) && pids[id] == pid && captured.contains_key(pid) ==> identities(
            pids,
            captured,
        ).contains_key(id) && identities(pids, captured)[id] == captured[pid],
        pids.contains_key(id) && pids[id] == pid && !captured.contains_key(pid) ==> !identities(
            pids,
            captured,
        ).contains_key(id),
        !pids.contains_key(id) ==> !identities(pids, captured).contains_key(id),
{
}

} // verus!
