//! What containers a pod yields, said of its metadata, its spec and its status.
use vstd::prelude::*;
use vstd::string::*;

use crate::discovery::kubernetes::{
    agree, containers_say, entry, first_owner, owner_workload, pod_containers, pod_says, says,
    status_place, statuses_of, vars_say, workload_of, ContainerStatus, EnvVar, ObjectMeta, Owner,
    OwnerReference, Pod, PodContainer, PodSpec, ReportedState, Said,
};
use crate::laws::text::the_last_one_is_found;
use crate::strmap::StrMap;
use crate::text::trimmed;

verus! {

proof fn lemma_kinds_differ()
    ensures
        "ReplicaSet"@.len() == 10,
        "StatefulSet"@.len() == 11,
        "DaemonSet"@.len() == 9,
        "Job"@.len() == 3,
        "CronJob"@.len() == 7,
{
    reveal_strlit("ReplicaSet");
    reveal_strlit("StatefulSet");
    reveal_strlit("DaemonSet");
    reveal_strlit("Job");
    reveal_strlit("CronJob");
}

/// Each kind of owner names its workload: a replica set that of the deployment in front
/// of its last hyphen, every other kind its own.
pub proof fn owners_name_their_workload(owner: OwnerReference, base: Seq<char>, hash: Seq<char>)
    requires
        forall|i: int| 0 <= i < hash.len() ==> #[trigger] hash[i] != '-',
    ensures
        owner.kind@ == "ReplicaSet"@ && owner.name@ == base + seq!['-'] + hash ==> owner_workload(
            owner,
        ) == Some(Owner { name: base, kind: "deployment"@, replica_set: owner.name@ }),
        owner.kind@ == "ReplicaSet"@ && owner.name@ == hash ==> owner_workload(owner) == Some(
            Owner { name: hash, kind: "replicaset"@, replica_set: hash },
        ),
        owner.kind@ == "StatefulSet"@ ==> owner_workload(owner) == Some(
            Owner { name: owner.name@, kind: "statefulset"@, replica_set: seq![] },
        ),
        owner.kind@ == "DaemonSet"@ ==> owner_workload(owner) == Some(
            Owner { name: owner.name@, kind: "daemonset"@, replica_set: seq![] },
        ),
        owner.kind@ == "Job"@ ==> owner_workload(owner) == Some(
            Owner { name: owner.name@, kind: "job"@, replica_set: seq![] },
        ),
        owner.kind@ == "CronJob"@ ==> owner_workload(owner) == Some(
            Owner { name: owner.name@, kind: "cronjob"@, replica_set: seq![] },
        ),
        owner.kind@ != "ReplicaSet"@ && owner.kind@ != "StatefulSet"@ && owner.kind@
            != "DaemonSet"@ && owner.kind@ != "Job"@ && owner.kind@ != "CronJob"@
            ==> owner_workload(owner) is None,
{
    lemma_kinds_differ();
    the_last_one_is_found(base, '-', hash);
    assert((base + seq!['-'] + hash).take(base.len() as int) =~= base);
}

/// Whether an owner is of a kind that stands for a workload.
pub open spec fn of_known_kind(owner: OwnerReference) -> bool {
    owner.kind@ == "ReplicaSet"@ || owner.kind@ == "StatefulSet"@ || owner.kind@ == "DaemonSet"@
        || owner.kind@ == "Job"@ || owner.kind@ == "CronJob"@
}

proof fn lemma_first_owner(owners: Seq<OwnerReference>, at: int)
    requires
        0 <= at <= owners.len(),
        forall|i: int| 0 <= i < at ==> !of_known_kind(#[trigger] owners[i]),
        at < owners.len() ==> of_known_kind(owners[at]),
    ensures
        first_owner(owners) == if at < owners.len() {
            owner_workload(owners[at])
        } else {
            None
        },
    decreases owners.len(),
{
    lemma_kinds_differ();
    if owners.len() > 0 {
        owners_name_their_workload(owners[0], Seq::<char>::empty(), Seq::<char>::empty());
        if at > 0 {
            assert(!of_known_kind(owners[0]));
            let rest = owners.skip(1);
            assert forall|i: int| 0 <= i < at - 1 implies !of_known_kind(#[trigger] rest[i]) by {
                assert(rest[i] == owners[i + 1]);
            }
            lemma_first_owner(rest, at - 1);
        }
    }
}

/// A pod belongs to the workload of its first owner of a known kind, whatever its labels
/// say; one that has none to the workload that its `app` label names, then its
/// `app.kubernetes.io/name`, and else it is a workload of its own.
pub proof fn pods_belong_to_their_first_owner(metadata: ObjectMeta, at: int)
    ensures
        metadata.owner_references is Some && 0 <= at < metadata.owner_references->0@.len()
            && of_known_kind(metadata.owner_references->0@[at]) && (forall|i: int|
            0 <= i < at ==> !of_known_kind(#[trigger] metadata.owner_references->0@[i]))
            ==> Some(workload_of(metadata)) == owner_workload(metadata.owner_references->0@[at]),
        metadata.owner_references is None || (forall|i: int|
            0 <= i < metadata.owner_references->0@.len() ==> !of_known_kind(
                #[trigger] metadata.owner_references->0@[i],
            )) ==> {
            let w = workload_of(metadata);
            let app = entry(metadata.labels, "app"@);
            let name = entry(metadata.labels, "app.kubernetes.io/name"@);
            &&& w.kind == "unknown"@
            &&& w.replica_set == Seq::<char>::empty()
            &&& app is Some ==> w.name == app->0
            &&& app is None && name is Some ==> w.name == name->0
            &&& app is None && name is None && metadata.name is Some ==> w.name
                == metadata.name->0@
            &&& app is None && name is None && metadata.name is None ==> w.name == "unknown"@
        },
{
    if metadata.owner_references is Some {
        let owners = metadata.owner_references->0@;
        if 0 <= at < owners.len() && of_known_kind(owners[at]) && (forall|i: int|
            0 <= i < at ==> !of_known_kind(#[trigger] owners[i])) {
            lemma_first_owner(owners, at);
            owners_name_their_workload(owners[at], Seq::<char>::empty(), Seq::<char>::empty());
            lemma_kinds_differ();
        }
        if forall|i: int| 0 <= i < owners.len() ==> !of_known_kind(#[trigger] owners[i]) {
            lemma_first_owner(owners, owners.len() as int);
        }
    }
}

/// The text, or another one where there is none.
pub open spec fn or_else(s: Option<String>, other: Seq<char>) -> Seq<char> {
    match s {
        Some(t) => t@,
        None => other,
    }
}

/// A pod that opts in yields a container for each in its spec: the container's own name
/// and image, the pod's names, uid, node and labels, the workload that owns the pod, the
/// directory of the container's log, and the consent.
pub proof fn pods_yield_their_containers(pod: Pod, dir: Seq<char>, i: int)
    requires
        pod.spec is Some,
        0 <= i < pod_containers(pod, dir).len(),
    ensures
        ({
            let spec = pod.spec->0;
            let c = pod_containers(pod, dir)[i];
            let own = spec.containers@[i];
            let namespace = or_else(pod.metadata.namespace, "default"@);
            let pod_name = or_else(pod.metadata.name, seq![]);
            let uid = or_else(pod.metadata.uid, seq![]);
            &&& pod_containers(pod, dir).len() == spec.containers@.len()
            &&& pod_says(pod.metadata, spec) == Said::One(c.service_name)
            &&& c.service_name_explicit
            &&& c.container_name == own.name@
            &&& c.image == or_else(own.image, seq![])
            &&& c.namespace == namespace
            &&& c.pod_name == pod_name
            &&& c.pod_uid == uid
            &&& c.node_name == or_else(spec.node_name, seq![])
            &&& c.deployment == workload_of(pod.metadata).name
            &&& c.workload_kind == workload_of(pod.metadata).kind
            &&& c.id == namespace + seq!['/'] + pod_name + seq!['/'] + own.name@
            &&& c.name == pod_name + seq!['-'] + own.name@
            &&& c.log_path == dir + seq!['/'] + (namespace + seq!['_'] + pod_name + seq!['_'] + uid)
                + seq!['/'] + own.name@
            &&& c.runtime == "kubernetes"@
            &&& c.env.len() == 0
            &&& c.runtime_process is None
            &&& forall|key: Seq<char>| #[trigger]
                c.labels.contains_key(key) <==> entry(pod.metadata.labels, key) is Some
            &&& forall|key: Seq<char>| #[trigger]
                c.labels.contains_key(key) ==> entry(pod.metadata.labels, key) == Some(
                    c.labels[key],
                )
        }),
{
    reveal_strlit("/");
    reveal_strlit("_");
    reveal_strlit("-");
    assert("/"@ =~= seq!['/']);
    assert("_"@ =~= seq!['_']);
    assert("-"@ =~= seq!['-']);
}

/// Pods of one deployment are one workload: two pods of a namespace whose first known
/// owners are replica sets with the same text before their last hyphens yield the same
/// stable id for the same container, whatever the pods are called.
pub proof fn pods_of_a_deployment_share_its_identity(
    a: Pod,
    b: Pod,
    dir: Seq<char>,
    i: int,
    j: int,
    at: int,
    bt: int,
    base: Seq<char>,
    x: Seq<char>,
    y: Seq<char>,
)
    requires
        a.spec is Some,
        b.spec is Some,
        0 <= i < pod_containers(a, dir).len(),
        0 <= j < pod_containers(b, dir).len(),
        a.spec->0.containers@[i].name@ == b.spec->0.containers@[j].name@,
        a.spec->0.containers@[i].name@.len() > 0,
        or_else(a.metadata.namespace, "default"@) == or_else(b.metadata.namespace, "default"@),
        or_else(a.metadata.namespace, "default"@).len() > 0,
        a.metadata.owner_references is Some,
        b.metadata.owner_references is Some,
        0 <= at < a.metadata.owner_references->0@.len(),
        0 <= bt < b.metadata.owner_references->0@.len(),
        a.metadata.owner_references->0@[at].kind@ == "ReplicaSet"@,
        b.metadata.owner_references->0@[bt].kind@ == "ReplicaSet"@,
        forall|k: int|
            0 <= k < at ==> !of_known_kind(#[trigger] a.metadata.owner_references->0@[k]),
        forall|k: int|
            0 <= k < bt ==> !of_known_kind(#[trigger] b.metadata.owner_references->0@[k]),
        a.metadata.owner_references->0@[at].name@ == base + seq!['-'] + x,
        b.metadata.owner_references->0@[bt].name@ == base + seq!['-'] + y,
        forall|k: int| 0 <= k < x.len() ==> #[trigger] x[k] != '-',
        forall|k: int| 0 <= k < y.len() ==> #[trigger] y[k] != '-',
        base.len() > 0,
    ensures
        pod_containers(a, dir)[i].stable_id() == pod_containers(b, dir)[j].stable_id(),
        pod_containers(a, dir)[i].stable_id() == or_else(a.metadata.namespace, "default"@)
            + seq!['/'] + base + seq!['/'] + a.spec->0.containers@[i].name@,
        pod_containers(a, dir)[i].workload_kind == "deployment"@,
{
    pods_yield_their_containers(a, dir, i);
    pods_yield_their_containers(b, dir, j);
    pods_belong_to_their_first_owner(a.metadata, at);
    pods_belong_to_their_first_owner(b.metadata, bt);
    owners_name_their_workload(a.metadata.owner_references->0@[at], base, x);
    owners_name_their_workload(b.metadata.owner_references->0@[bt], base, y);
    crate::laws::container::workloads_are_known_by_kubernetes(pod_containers(a, dir)[i]);
    crate::laws::container::workloads_are_known_by_kubernetes(pod_containers(b, dir)[j]);
}

// ---------------------------------------------------------------------------
// States
// ---------------------------------------------------------------------------

proof fn lemma_status_place(statuses: Seq<ContainerStatus>, name: Seq<char>, at: int)
    requires
        0 <= at <= statuses.len(),
        forall|i: int| 0 <= i < at ==> (#[trigger] statuses[i]).name@ != name,
        at < statuses.len() ==> statuses[at].name@ == name,
    ensures
        status_place(statuses, name) == at,
    decreases statuses.len(),
{
    if at > 0 {
        assert(statuses[0].name@ != name);
        let rest = statuses.skip(1);
        assert forall|i: int| 0 <= i < at - 1 implies (#[trigger] rest[i]).name@ != name by {
            assert(rest[i] == statuses[i + 1]);
        }
        lemma_status_place(rest, name, at - 1);
    }
}

/// A container's state and runtime id are those of the first status of its name; where
/// that reports no state, or there is none, the state is that of the pod's phase.
pub proof fn states_come_from_the_status(pod: Pod, dir: Seq<char>, i: int, at: int)
    requires
        pod.spec is Some,
        0 <= i < pod_containers(pod, dir).len(),
    ensures
        ({
            let c = pod_containers(pod, dir)[i];
            let name = pod.spec->0.containers@[i].name@;
            let phase = if pod.status is Some && pod.status->0.phase is Some {
                pod.status->0.phase->0@
            } else {
                "Unknown"@
            };
            let by_phase = if phase == "Running"@ {
                "running"@
            } else if phase == "Pending"@ {
                "pending"@
            } else if phase == "Succeeded"@ {
                "succeeded"@
            } else if phase == "Failed"@ {
                "failed"@
            } else {
                "unknown"@
            };
            &&& pod.status is Some && pod.status->0.container_statuses is Some && 0 <= at
                < pod.status->0.container_statuses->0@.len()
                && pod.status->0.container_statuses->0@[at].name@ == name && (forall|k: int|
                0 <= k < at ==> (#[trigger] pod.status->0.container_statuses->0@[k]).name@ != name)
                ==> {
                let s = pod.status->0.container_statuses->0@[at];
                &&& c.container_id == or_else(s.container_id, seq![])
                &&& c.state == match s.state {
                    ReportedState::Running => "running"@,
                    ReportedState::Waiting => "waiting"@,
                    ReportedState::Terminated => "terminated"@,
                    ReportedState::Unreported => by_phase,
                }
            }
            &&& pod.status is None || pod.status->0.container_statuses is None || (forall|k: int|
                0 <= k < pod.status->0.container_statuses->0@.len() ==> (
                #[trigger] pod.status->0.container_statuses->0@[k]).name@ != name) ==> {
                &&& c.container_id == Seq::<char>::empty()
                &&& c.state == by_phase
            }
        }),
{
    let name = pod.spec->0.containers@[i].name@;
    reveal_strlit("running");
    reveal_strlit("waiting");
    reveal_strlit("terminated");
    reveal_strlit("unknown");
    assert("running"@.len() == 7 && "waiting"@.len() == 7 && "terminated"@.len() == 10
        && "unknown"@.len() == 7);
    assert("running"@[0] == 'r' && "waiting"@[0] == 'w' && "unknown"@[0] == 'u');
    if pod.status is Some && pod.status->0.container_statuses is Some {
        let list = pod.status->0.container_statuses->0@;
        if 0 <= at < list.len() && list[at].name@ == name && (forall|k: int|
            0 <= k < at ==> (#[trigger] list[k]).name@ != name) {
            lemma_status_place(list, name, at);
        }
        if forall|k: int| 0 <= k < list.len() ==> (#[trigger] list[k]).name@ != name {
            lemma_status_place(list, name, list.len() as int);
        }
    } else {
        lemma_status_place(Seq::<ContainerStatus>::empty(), name, 0);
        assert(statuses_of(pod.status) =~= Seq::<ContainerStatus>::empty());
    }
}

// ---------------------------------------------------------------------------
// Consent
// ---------------------------------------------------------------------------

/// Whether a pod's annotation, its label, or the environment of one of its containers
/// says that the service is called so.
pub open spec fn says_so(metadata: ObjectMeta, spec: PodSpec, name: Seq<char>) -> bool {
    ||| entry_says(metadata.annotations, name)
    ||| entry_says(metadata.labels, name)
    ||| some_container_says(spec.containers@, name)
}

/// Whether a map holds the name under `logpacer.com/service-name`, but for white space
/// around it.
pub open spec fn entry_says(m: Option<StrMap<String>>, name: Seq<char>) -> bool {
    let key = "logpacer.com/service-name"@;
    m is Some && m->0@.contains_key(key) && name.len() > 0 && trimmed(m->0@[key]@) == name
}

/// Whether a variable `LOGPACER_SERVICE_NAME` holds the name.
pub open spec fn var_says(v: EnvVar, name: Seq<char>) -> bool {
    v.name@ == "LOGPACER_SERVICE_NAME"@ && v.value is Some && name.len() > 0 && trimmed(
        v.value->0@,
    ) == name
}

/// Whether a variable of a container says the name.
pub open spec fn container_says(c: PodContainer, name: Seq<char>) -> bool {
    c.env is Some && exists|i: int| 0 <= i < c.env->0@.len() && var_says(#[trigger] c.env->0@[i], name)
}

/// Whether a variable of some container says the name.
pub open spec fn some_container_says(cs: Seq<PodContainer>, name: Seq<char>) -> bool {
    exists|i: int| 0 <= i < cs.len() && container_says(#[trigger] cs[i], name)
}

/// What is said, stated by the names that are said.
spec fn means(said: Said, names: spec_fn(Seq<char>) -> bool) -> bool {
    match said {
        Said::Nothing => forall|n: Seq<char>| !#[trigger] names(n),
        Said::One(x) => forall|n: Seq<char>| #[trigger] names(n) <==> n == x,
        Said::Conflict => exists|n: Seq<char>, o: Seq<char>| n != o && #[trigger] names(n)
            && #[trigger] names(o),
    }
}

proof fn lemma_agree(
    a: Said,
    b: Said,
    f: spec_fn(Seq<char>) -> bool,
    g: spec_fn(Seq<char>) -> bool,
    h: spec_fn(Seq<char>) -> bool,
)
    requires
        means(a, f),
        means(b, g),
        forall|n: Seq<char>| #[trigger] h(n) <==> f(n) || g(n),
    ensures
        means(agree(a, b), h),
{
    match (a, b) {
        (Said::Conflict, _) => {
            let (n, o) = choose|n: Seq<char>, o: Seq<char>| n != o && #[trigger] f(n)
                && #[trigger] f(o);
            assert(h(n) && h(o));
        },
        (_, Said::Conflict) => {
            let (n, o) = choose|n: Seq<char>, o: Seq<char>| n != o && #[trigger] g(n)
                && #[trigger] g(o);
            assert(h(n) && h(o));
        },
        (Said::One(x), Said::One(y)) => {
            assert(f(x) && g(y));
            assert(h(x) && h(y));
        },
        (Said::One(x), Said::Nothing) => {
            assert(f(x));
        },
        (Said::Nothing, Said::One(y)) => {
            assert(g(y));
        },
        _ => {},
    }
}

proof fn lemma_says(s: Option<Seq<char>>, f: spec_fn(Seq<char>) -> bool)
    requires
        forall|n: Seq<char>| #[trigger] f(n) <==> s is Some && n.len() > 0 && trimmed(s->0) == n,
    ensures
        means(says(s), f),
{
    if s is Some {
        assert(f(trimmed(s->0)) <==> trimmed(s->0).len() > 0);
    }
}

proof fn lemma_vars(vars: Seq<EnvVar>)
    ensures
        means(
            vars_say(vars),
            |n: Seq<char>| exists|i: int| 0 <= i < vars.len() && var_says(#[trigger] vars[i], n),
        ),
    decreases vars.len(),
{
    let h = |n: Seq<char>| exists|i: int| 0 <= i < vars.len() && var_says(#[trigger] vars[i], n);
    if vars.len() > 0 {
        let front = vars.drop_last();
        let last = vars.last();
        lemma_vars(front);
        let f = |n: Seq<char>| exists|i: int| 0 <= i < front.len() && var_says(#[trigger] front[i], n);
        let g = |n: Seq<char>| var_says(last, n);
        let said = if last.name@ == "LOGPACER_SERVICE_NAME"@ {
            says(crate::text::opt_view(last.value))
        } else {
            Said::Nothing
        };
        assert(means(said, g)) by {
            if last.name@ == "LOGPACER_SERVICE_NAME"@ {
                lemma_says(crate::text::opt_view(last.value), g);
            }
        }
        assert forall|n: Seq<char>| #[trigger] h(n) <==> f(n) || g(n) by {
            if h(n) {
                let i = choose|i: int| 0 <= i < vars.len() && var_says(#[trigger] vars[i], n);
                if i < front.len() {
                    assert(var_says(front[i], n));
                }
            }
            if f(n) {
                let i = choose|i: int| 0 <= i < front.len() && var_says(#[trigger] front[i], n);
                assert(var_says(vars[i], n));
            }
            if g(n) {
                assert(var_says(vars[vars.len() - 1], n));
            }
        }
        lemma_agree(vars_say(front), said, f, g, h);
    }
}

proof fn lemma_containers(cs: Seq<PodContainer>)
    ensures
        means(containers_say(cs), |n: Seq<char>| some_container_says(cs, n)),
    decreases cs.len(),
{
    let h = |n: Seq<char>| some_container_says(cs, n);
    if cs.len() > 0 {
        let front = cs.drop_last();
        let last = cs.last();
        lemma_containers(front);
        let f = |n: Seq<char>| some_container_says(front, n);
        let g = |n: Seq<char>| container_says(last, n);
        let said = match last.env {
            Some(vars) => vars_say(vars@),
            None => Said::Nothing,
        };
        assert(means(said, g)) by {
            if let Some(vars) = last.env {
                let v = vars@;
                lemma_vars(v);
                let k = |n: Seq<char>|
                    exists|i: int| 0 <= i < v.len() && var_says(#[trigger] v[i], n);
                assert(means(said, k));
                assert forall|n: Seq<char>| #[trigger] g(n) <==> k(n) by {}
                lemma_same_meaning(said, k, g);
            }
        }
        assert forall|n: Seq<char>| #[trigger] h(n) <==> f(n) || g(n) by {
            if h(n) {
                let i = choose|i: int| 0 <= i < cs.len() && container_says(#[trigger] cs[i], n);
                if i < front.len() {
                    assert(container_says(front[i], n));
                }
            }
            if f(n) {
                let i = choose|i: int|
                    0 <= i < front.len() && container_says(#[trigger] front[i], n);
                assert(container_says(cs[i], n));
            }
            if g(n) {
                assert(container_says(cs[cs.len() - 1], n));
            }
        }
        lemma_agree(containers_say(front), said, f, g, h);
    }
}

proof fn lemma_same_meaning(
    said: Said,
    f: spec_fn(Seq<char>) -> bool,
    g: spec_fn(Seq<char>) -> bool,
)
    requires
        means(said, f),
        forall|n: Seq<char>| #[trigger] g(n) <==> f(n),
    ensures
        means(said, g),
{
    match said {
        Said::Nothing => {},
        Said::One(x) => {
            assert forall|n: Seq<char>| #[trigger] g(n) <==> n == x by {
                assert(f(n) <==> n == x);
            }
        },
        Said::Conflict => {
            let (n, o) = choose|n: Seq<char>, o: Seq<char>| n != o && #[trigger] f(n)
                && #[trigger] f(o);
            assert(g(n) && g(o));
        },
    }
}

/// A pod is collected from just if its annotation, its label and the environments of its
/// containers say one service name between them, and none says another. Then that is the
/// name of the service of each of its containers.
pub proof fn pods_opt_in_with_one_name(pod: Pod, dir: Seq<char>, name: Seq<char>)
    requires
        pod.spec is Some,
    ensures
        ({
            let spec = pod.spec->0;
            let one = says_so(pod.metadata, spec, name) && forall|n: Seq<char>| #[trigger]
                says_so(pod.metadata, spec, n) ==> n == name;
            &&& one ==> pod_containers(pod, dir).len() == spec.containers@.len() && forall|i: int|
                0 <= i < pod_containers(pod, dir).len() ==> (
                #[trigger] pod_containers(pod, dir)[i]).service_name == name
            &&& !says_so(pod.metadata, spec, name) && (forall|n: Seq<char>|
                !#[trigger] says_so(pod.metadata, spec, n)) ==> pod_containers(pod, dir).len() == 0
            &&& (exists|n: Seq<char>, o: Seq<char>| n != o && #[trigger] says_so(
                pod.metadata,
                spec,
                n,
            ) && #[trigger] says_so(pod.metadata, spec, o)) ==> pod_containers(pod, dir).len() == 0
        }),
{
    let metadata = pod.metadata;
    let spec = pod.spec->0;
    let key = "logpacer.com/service-name"@;
    let fa = |n: Seq<char>| entry_says(metadata.annotations, n);
    let fl = |n: Seq<char>| entry_says(metadata.labels, n);
    let fc = |n: Seq<char>| some_container_says(spec.containers@, n);
    let fal = |n: Seq<char>| fa(n) || fl(n);
    let all = |n: Seq<char>| says_so(metadata, spec, n);
    lemma_says(entry(metadata.annotations, key), fa);
    lemma_says(entry(metadata.labels, key), fl);
    lemma_containers(spec.containers@);
    lemma_agree(
        says(entry(metadata.annotations, key)),
        says(entry(metadata.labels, key)),
        fa,
        fl,
        fal,
    );
    lemma_agree(
        agree(says(entry(metadata.annotations, key)), says(entry(metadata.labels, key))),
        containers_say(spec.containers@),
        fal,
        fc,
        all,
    );
    let said = pod_says(metadata, spec);
    assert(means(said, all));
    assert(all(name) == says_so(metadata, spec, name));
    match said {
        Said::Nothing => {
            assert forall|n: Seq<char>| !says_so(metadata, spec, n) by {
                assert(!all(n));
            }
        },
        Said::One(x) => {
            assert(all(x));
            assert(says_so(metadata, spec, x));
            assert forall|n: Seq<char>| #[trigger] says_so(metadata, spec, n) implies n == x by {
                assert(all(n));
            }
        },
        Said::Conflict => {
            let (n, o) = choose|n: Seq<char>, o: Seq<char>| n != o && #[trigger] all(n)
                && #[trigger] all(o);
            assert(says_so(metadata, spec, n) && says_so(metadata, spec, o));
        },
    }
}

} // verus!
