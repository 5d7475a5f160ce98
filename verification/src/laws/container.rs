//! What a container is known by, said of its labels and its fields.
use vstd::prelude::*;
use vstd::string::*;

use crate::config::hash::lemma_decimal_is_digits;
use crate::discovery::container::{
    identity_from_stat, image_repo_of, AccessMethod, ContainerView, RuntimeProcessIdentity,
};
use crate::laws::text::{
    decimal_digits_write_the_number, numbers_are_read_as_written, splitting_undoes_joining,
    the_last_one_is_found, trimming_takes_white_space_off,
};
use crate::text::{decimal, find, is_white, lemma_find_at, lemma_rfind, rfind, split, words};

verus! {

/// Whether a map holds just this under a key: the value, or nothing.
pub open spec fn holds(m: Map<Seq<char>, Seq<char>>, key: Seq<char>, value: Option<Seq<char>>) -> bool {
    match value {
        Some(v) => m.contains_key(key) && m[key] == v,
        None => !m.contains_key(key),
    }
}

/// What a map holds under a key.
pub open spec fn under(m: Map<Seq<char>, Seq<char>>, key: Seq<char>) -> Option<Seq<char>> {
    if m.contains_key(key) {
        Some(m[key])
    } else {
        None
    }
}

/// A text that is there.
pub open spec fn filled(s: Seq<char>) -> Option<Seq<char>> {
    if s.len() == 0 {
        None
    } else {
        Some(s)
    }
}

proof fn lemma_atom_names_differ()
    ensures
        "service_name"@ != "k8s.workload"@,
        "kamal.role"@ != "image.repo"@,
        "compose.project"@ != "compose.service"@,
        "kamal.service"@ != "swarm.service"@,
        "kamal.service"@ != "k8s.namespace"@,
        "kamal.service"@ != "k8s.container"@,
        "swarm.service"@ != "k8s.namespace"@,
        "swarm.service"@ != "k8s.container"@,
        "k8s.namespace"@ != "k8s.container"@,
        "service_name"@.len() == 12,
        "k8s.workload"@.len() == 12,
        "kamal.service"@.len() == 13,
        "swarm.service"@.len() == 13,
        "k8s.namespace"@.len() == 13,
        "k8s.container"@.len() == 13,
        "kamal.destination"@.len() == 17,
        "kamal.role"@.len() == 10,
        "image.repo"@.len() == 10,
        "compose.project"@.len() == 15,
        "compose.service"@.len() == 15,
        "swarm.stack"@.len() == 11,
        "container.name"@.len() == 14,
{
    reveal_strlit("service_name");
    reveal_strlit("k8s.workload");
    reveal_strlit("kamal.service");
    reveal_strlit("swarm.service");
    reveal_strlit("k8s.namespace");
    reveal_strlit("k8s.container");
    reveal_strlit("kamal.destination");
    reveal_strlit("kamal.role");
    reveal_strlit("image.repo");
    reveal_strlit("compose.project");
    reveal_strlit("compose.service");
    reveal_strlit("swarm.stack");
    reveal_strlit("container.name");
    assert("service_name"@[0] == 's' && "k8s.workload"@[0] == 'k');
    assert("kamal.role"@[0] == 'k' && "image.repo"@[0] == 'i');
    assert("compose.project"@[8] == 'p' && "compose.service"@[8] == 's');
    assert("kamal.service"@[1] == 'a' && "swarm.service"@[1] == 'w' && "k8s.namespace"@[1] == '8'
        && "k8s.container"@[1] == '8');
    assert("k8s.namespace"@[4] == 'n' && "k8s.container"@[4] == 'c');
}

/// The atom under each key is the fact of that name: labels stand under the names of the
/// tools that set them, the workload under Kubernetes' names, the image without its tag,
/// and the service's name only with consent. There is no other atom.
pub proof fn atoms_are_the_facts_of_their_names(c: ContainerView)
    ensures
        ({
            let atoms = c.identifier_set();
            let kamal = c.labels.contains_key("service"@) && c.labels.contains_key("destination"@);
            let of_kamal = |key: Seq<char>|
                if kamal {
                    under(c.labels, key)
                } else {
                    None
                };
            &&& holds(
                atoms,
                "service_name"@,
                if c.service_name_explicit {
                    filled(c.service_name)
                } else {
                    None
                },
            )
            &&& holds(atoms, "kamal.service"@, of_kamal("service"@))
            &&& holds(atoms, "kamal.destination"@, of_kamal("destination"@))
            &&& holds(atoms, "kamal.role"@, of_kamal("role"@))
            &&& holds(atoms, "compose.project"@, under(c.labels, "com.docker.compose.project"@))
            &&& holds(atoms, "compose.service"@, under(c.labels, "com.docker.compose.service"@))
            &&& holds(atoms, "swarm.stack"@, under(c.labels, "com.docker.stack.namespace"@))
            &&& holds(atoms, "swarm.service"@, under(c.labels, "com.docker.swarm.service.name"@))
            &&& holds(atoms, "k8s.namespace"@, filled(c.namespace))
            &&& holds(atoms, "k8s.workload"@, filled(c.deployment))
            &&& holds(atoms, "k8s.container"@, filled(c.container_name))
            &&& holds(atoms, "image.repo"@, image_repo_of(c.image))
            &&& holds(atoms, "container.name"@, filled(c.name))
            &&& forall|key: Seq<char>| #[trigger]
                atoms.contains_key(key) ==> key == "service_name"@ || key == "kamal.service"@ || key
                    == "kamal.destination"@ || key == "kamal.role"@ || key == "compose.project"@
                    || key == "compose.service"@ || key == "swarm.stack"@ || key
                    == "swarm.service"@ || key == "k8s.namespace"@ || key == "k8s.workload"@ || key
                    == "k8s.container"@ || key == "image.repo"@ || key == "container.name"@
        }),
{
    lemma_atom_names_differ();
}

/// An image's repository is what is left without its digest and its tag: a tag is what
/// follows a colon behind the last slash, so that a registry's port stays.
pub proof fn repositories_have_no_tag(
    path: Seq<char>,
    name: Seq<char>,
    tag: Seq<char>,
    digest: Seq<char>,
)
    requires
        path.len() == 0 || path.last() == '/',
        name.len() > 0,
        forall|i: int| 0 <= i < path.len() ==> #[trigger] path[i] != '@',
        forall|i: int|
            0 <= i < name.len() ==> #[trigger] name[i] != '@' && name[i] != ':' && name[i] != '/',
        forall|i: int|
            0 <= i < tag.len() ==> #[trigger] tag[i] != '@' && tag[i] != ':' && tag[i] != '/',
    ensures
        image_repo_of(path + name) == Some(path + name),
        image_repo_of(path + name + seq![':'] + tag) == Some(path + name),
        image_repo_of(path + name + seq!['@'] + digest) == Some(path + name),
        image_repo_of(path + name + seq![':'] + tag + seq!['@'] + digest) == Some(path + name),
        image_repo_of(Seq::<char>::empty()) is None,
{
    let repo = path + name;
    let tagged = repo + seq![':'] + tag;
    lemma_no_tag(path, name);
    lemma_bare(repo, digest);
    assert(repo.take(repo.len() as int) =~= repo);
    lemma_tag(path, name, tag);
    lemma_bare(tagged, digest);
    lemma_find_at(Seq::<char>::empty(), '@', 0);
    assert(Seq::<char>::empty().take(0) =~= Seq::<char>::empty());
}

proof fn lemma_no_tag(path: Seq<char>, name: Seq<char>)
    requires
        path.len() == 0 || path.last() == '/',
        forall|i: int|
            0 <= i < name.len() ==> #[trigger] name[i] != '@' && name[i] != ':' && name[i] != '/',
    ensures
        path.len() == 0 ==> rfind(path + name, '/') == -1 && rfind(path + name, ':') == -1,
        path.len() > 0 ==> rfind(path + name, '/') == path.len() - 1 && rfind(path + name, ':')
            < path.len() - 1,
{
    let repo = path + name;
    lemma_rfind(repo, '/');
    lemma_rfind(repo, ':');
    assert forall|i: int| path.len() <= i < repo.len() implies repo[i] != '/' && repo[i] != ':' by {
        assert(repo[i] == name[i - path.len()]);
    }
    if path.len() > 0 {
        assert(repo[path.len() - 1] == '/');
    }
}

proof fn lemma_tag(path: Seq<char>, name: Seq<char>, tag: Seq<char>)
    requires
        path.len() == 0 || path.last() == '/',
        name.len() > 0,
        forall|i: int| 0 <= i < path.len() ==> #[trigger] path[i] != '@',
        forall|i: int|
            0 <= i < name.len() ==> #[trigger] name[i] != '@' && name[i] != ':' && name[i] != '/',
        forall|i: int|
            0 <= i < tag.len() ==> #[trigger] tag[i] != '@' && tag[i] != ':' && tag[i] != '/',
    ensures
        ({
            let tagged = path + name + seq![':'] + tag;
            &&& rfind(tagged, ':') == path.len() + name.len()
            &&& rfind(tagged, '/') < rfind(tagged, ':')
            &&& tagged.take(rfind(tagged, ':')) == path + name
        }),
{
    let tagged = path + name + seq![':'] + tag;
    let n = (path.len() + name.len()) as int;
    the_last_one_is_found(path + name, ':', tag);
    lemma_rfind(tagged, '/');
    assert forall|i: int| path.len() <= i < tagged.len() implies tagged[i] != '/' by {
        if i < n {
            assert(tagged[i] == name[i - path.len()]);
        } else if i > n {
            assert(tagged[i] == tag[i - n - 1]);
        }
    }
    assert(tagged.take(n) =~= path + name);
}

/// What stands in front of a digest holds no at sign of its own.
proof fn lemma_bare(bare: Seq<char>, digest: Seq<char>)
    requires
        forall|i: int| 0 <= i < bare.len() ==> #[trigger] bare[i] != '@',
    ensures
        find(bare, '@') == bare.len(),
        bare.take(bare.len() as int) == bare,
        find(bare + seq!['@'] + digest, '@') == bare.len(),
        (bare + seq!['@'] + digest).take(bare.len() as int) == bare,
{
    lemma_find_at(bare, '@', bare.len() as int);
    assert(bare.take(bare.len() as int) =~= bare);
    let s = bare + seq!['@'] + digest;
    lemma_find_at(s, '@', bare.len() as int);
    assert(s.take(bare.len() as int) =~= bare);
}

// ---------------------------------------------------------------------------
// Identities
// ---------------------------------------------------------------------------

/// The identity of a workload in Kubernetes is its namespace, its name and the
/// container's name in the pod spec, whatever the labels say.
pub proof fn workloads_are_known_by_kubernetes(c: ContainerView)
    requires
        c.namespace.len() > 0,
        c.deployment.len() > 0,
    ensures
        c.container_name.len() > 0 ==> c.stable_id() == c.namespace + seq!['/'] + c.deployment
            + seq!['/'] + c.container_name,
        c.container_name.len() == 0 ==> c.stable_id() == c.namespace + seq!['/'] + c.deployment
            + seq!['/'] + c.name,
        c.workload_kind != "statefulset"@ && c.workload_kind != "daemonset"@
            ==> c.stable_instance_id() == c.stable_id(),
{
    reveal_strlit("/");
    assert("/"@ =~= seq!['/']);
}

/// A replica of a StatefulSet is known by the number that ends its pod's name, and a pod
/// of a DaemonSet by its node.
pub proof fn replicas_are_known_by_kubernetes(c: ContainerView, n: nat)
    requires
        c.namespace.len() > 0,
        c.deployment.len() > 0,
    ensures
        c.workload_kind == "statefulset"@ && c.pod_name == c.deployment + seq!['-'] + decimal(n)
            ==> c.stable_instance_id() == c.stable_id() + seq!['/'] + decimal(n),
        c.workload_kind == "statefulset"@ && !(c.deployment + seq!['-']).is_prefix_of(c.pod_name)
            ==> c.stable_instance_id() == c.stable_id(),
        c.workload_kind == "daemonset"@ && c.node_name.len() > 0 ==> c.stable_instance_id()
            == c.stable_id() + seq!['/'] + c.node_name,
        c.workload_kind == "daemonset"@ && c.node_name.len() == 0 ==> c.stable_instance_id()
            == c.stable_id(),
{
    reveal_strlit("/");
    reveal_strlit("-");
    reveal_strlit("statefulset");
    reveal_strlit("daemonset");
    assert("/"@ =~= seq!['/']);
    assert("-"@ =~= seq!['-']);
    assert("statefulset"@.len() == 11 && "daemonset"@.len() == 9);
    let prefix = c.deployment + "-"@;
    let s = prefix + decimal(n);
    lemma_number_after(prefix, n);
}

/// A number behind a beginning is found.
proof fn lemma_number_after(prefix: Seq<char>, n: nat)
    ensures
        crate::discovery::container::number_after(prefix + decimal(n), prefix) == Some(decimal(n)),
{
    let s = prefix + decimal(n);
    assert(s.subrange(0, prefix.len() as int) =~= prefix);
    assert(s.skip(prefix.len() as int) =~= decimal(n));
    lemma_decimal_is_digits(n);
}

/// A Compose service is known by its project and its name, a replica by the number that
/// Compose labels it with, or else by the number that ends its name.
pub proof fn compose_services_are_known_by_compose(
    c: ContainerView,
    project: Seq<char>,
    service: Seq<char>,
    n: nat,
)
    requires
        c.namespace.len() == 0 || c.deployment.len() == 0,
        c.labels.contains_key("com.docker.compose.project"@),
        c.labels["com.docker.compose.project"@] == project,
        c.labels.contains_key("com.docker.compose.service"@),
        c.labels["com.docker.compose.service"@] == service,
    ensures
        c.stable_id() == project + seq!['/'] + service,
        ({
            let key = "com.docker.compose.container-number"@;
            let replica = project + seq!['/'] + service + seq!['/'] + decimal(n);
            &&& c.labels.contains_key(key) && c.labels[key] == decimal(n) ==> c.stable_instance_id()
                == replica
            &&& !c.labels.contains_key(key) && c.name == project + seq!['-'] + service + seq!['-']
                + decimal(n) ==> c.stable_instance_id() == replica
            &&& !c.labels.contains_key(key) && c.name == project + seq!['_'] + service + seq!['_']
                + decimal(n) && !(project + seq!['-'] + service + seq!['-']).is_prefix_of(c.name)
                ==> c.stable_instance_id() == replica
            &&& !c.labels.contains_key(key) && !(project + seq!['-'] + service
                + seq!['-']).is_prefix_of(c.name) && !(project + seq!['_'] + service
                + seq!['_']).is_prefix_of(c.name) ==> c.stable_instance_id() == project + seq!['/']
                + service
        }),
{
    reveal_strlit("/");
    reveal_strlit("-");
    reveal_strlit("_");
    assert("/"@ =~= seq!['/']);
    assert("-"@ =~= seq!['-']);
    assert("_"@ =~= seq!['_']);
    lemma_number_after(project + seq!['-'] + service + seq!['-'], n);
    lemma_number_after(project + seq!['_'] + service + seq!['_'], n);
    lemma_decimal_is_digits(n);
    let h = project + seq!['-'] + service + seq!['-'];
    let s = h + decimal(n);
    assert(s.subrange(0, h.len() as int) =~= h);
}

/// Without a project a Compose service is known by its name alone.
pub proof fn services_without_a_project_keep_their_name(c: ContainerView)
    requires
        c.namespace.len() == 0 || c.deployment.len() == 0,
        !c.labels.contains_key("com.docker.compose.project"@),
        c.labels.contains_key("com.docker.compose.service"@),
    ensures
        c.stable_id() == c.labels["com.docker.compose.service"@],
{
}

/// A Swarm service is known by its stack and its name, a task by the slot in its name.
pub proof fn swarm_services_are_known_by_swarm(
    c: ContainerView,
    service: Seq<char>,
    head: Seq<char>,
    n: nat,
    id: Seq<char>,
)
    requires
        c.namespace.len() == 0 || c.deployment.len() == 0,
        !c.labels.contains_key("com.docker.compose.service"@),
        c.labels.contains_key("com.docker.swarm.service.name"@),
        c.labels["com.docker.swarm.service.name"@] == service,
        forall|i: int| 0 <= i < head.len() ==> #[trigger] head[i] != '.',
    ensures
        ({
            let stack = "com.docker.stack.namespace"@;
            let task = "com.docker.swarm.task.name"@;
            let workload = if c.labels.contains_key(stack) {
                c.labels[stack] + seq!['/'] + service
            } else {
                service
            };
            &&& c.stable_id() == workload
            &&& !c.labels.contains_key(task) ==> c.stable_instance_id() == workload
            &&& c.labels.contains_key(task) && c.labels[task] == head + seq!['.'] + decimal(n)
                + seq!['.'] + id ==> c.stable_instance_id() == workload + seq!['/'] + decimal(n)
        }),
{
    reveal_strlit("/");
    assert("/"@ =~= seq!['/']);
    let rest = decimal(n) + seq!['.'] + id;
    assert(head + seq!['.'] + decimal(n) + seq!['.'] + id =~= head + seq!['.'] + rest);
    splitting_undoes_joining(head, '.', rest);
    decimal_digits_write_the_number(n);
    splitting_undoes_joining(decimal(n), '.', id);
    lemma_decimal_is_digits(n);
    let parts = split(head + seq!['.'] + rest, '.');
    assert(parts[1] == decimal(n));
}

/// A Kamal service is known by its name and destination, an instance by its role too.
pub proof fn kamal_services_are_known_by_kamal(c: ContainerView)
    requires
        c.namespace.len() == 0 || c.deployment.len() == 0,
        !c.labels.contains_key("com.docker.compose.service"@),
        !c.labels.contains_key("com.docker.swarm.service.name"@),
        c.labels.contains_key("service"@),
        c.labels.contains_key("destination"@),
    ensures
        ({
            let service = c.labels["service"@];
            let destination = c.labels["destination"@];
            &&& c.stable_id() == service + seq!['-'] + destination
            &&& !c.labels.contains_key("role"@) ==> c.stable_instance_id() == service + seq!['-']
                + destination
            &&& c.labels.contains_key("role"@) ==> c.stable_instance_id() == service + seq!['-']
                + c.labels["role"@] + seq!['-'] + destination
        }),
{
    reveal_strlit("-");
    assert("-"@ =~= seq!['-']);
}

/// A container that no orchestrator labelled is known by its name.
pub proof fn other_containers_are_known_by_name(c: ContainerView)
    requires
        c.namespace.len() == 0 || c.deployment.len() == 0,
        !c.labels.contains_key("com.docker.compose.service"@),
        !c.labels.contains_key("com.docker.swarm.service.name"@),
        !(c.labels.contains_key("service"@) && c.labels.contains_key("destination"@)),
    ensures
        c.stable_id() == c.name,
        c.stable_instance_id() == c.name,
{
}

// ---------------------------------------------------------------------------
// Logs
// ---------------------------------------------------------------------------

/// A container's log is read where it is: in Kubernetes in the pod's directory, of Docker
/// in the file if it is on this host and else through the daemon, of other runtimes in the
/// file.
pub proof fn logs_are_read_where_they_are(c: ContainerView, files: Set<Seq<char>>)
    ensures
        c.runtime == "kubernetes"@ ==> c.access_method(files) == AccessMethod::Kubernetes
            && c.log_locator(files) == c.log_path,
        c.runtime == "docker"@ && c.log_path.len() > 0 && files.contains(c.log_path)
            ==> c.access_method(files) == AccessMethod::DockerJsonFile && c.log_locator(files)
            == c.log_path,
        c.runtime == "docker"@ && !(c.log_path.len() > 0 && files.contains(c.log_path))
            ==> c.access_method(files) == AccessMethod::DockerApi,
        c.runtime == "containerd"@ || c.runtime == "cri-o"@ || c.runtime == "podman"@
            ==> c.access_method(files) == AccessMethod::File && c.log_locator(files) == c.log_path,
        c.runtime != "kubernetes"@ && c.runtime != "docker"@ && c.log_path.len() > 0
            ==> c.access_method(files) == AccessMethod::File,
        c.runtime != "kubernetes"@ && c.runtime != "docker"@ && c.runtime != "containerd"@
            && c.runtime != "cri-o"@ && c.runtime != "podman"@ && c.log_path.len() == 0
            ==> c.access_method(files) == AccessMethod::DockerApi,
        c.access_method(files) == AccessMethod::DockerApi && c.container_id.len() > 0
            ==> c.log_locator(files) == c.container_id,
        c.access_method(files) == AccessMethod::DockerApi && c.container_id.len() == 0
            ==> c.log_locator(files) == c.name,
        c.access_method(files) != AccessMethod::DockerApi ==> c.log_locator(files) == c.log_path,
{
    lemma_runtimes_differ();
}

proof fn lemma_runtimes_differ()
    ensures
        "kubernetes"@.len() == 10,
        "docker"@.len() == 6,
        "containerd"@.len() == 10,
        "cri-o"@.len() == 5,
        "podman"@.len() == 6,
        "kubernetes"@ != "containerd"@,
        "docker"@ != "podman"@,
{
    reveal_strlit("kubernetes");
    reveal_strlit("docker");
    reveal_strlit("containerd");
    reveal_strlit("cri-o");
    reveal_strlit("podman");
    assert("kubernetes"@[0] == 'k' && "containerd"@[0] == 'c');
    assert("docker"@[0] == 'd' && "podman"@[0] == 'p');
}

// ---------------------------------------------------------------------------
// Processes
// ---------------------------------------------------------------------------

/// A process is known by its number and by the time of its birth, which is the twentieth
/// field behind the command's name, whatever spaces and parentheses that name holds.
pub proof fn processes_are_known_by_their_birth(
    pid: u32,
    expected: u32,
    comm: Seq<char>,
    tail: Seq<char>,
    ticks: u64,
)
    requires
        forall|i: int| 0 <= i < tail.len() ==> #[trigger] tail[i] != ')',
        words(tail).len() >= 20,
        words(tail)[19] == decimal(ticks as nat),
    ensures
        ({
            let stat = decimal(pid as nat) + seq![' ', '('] + comm + seq![')'] + tail;
            identity_from_stat(expected, stat) == if pid == expected && pid != 0 && ticks != 0 {
                Some(RuntimeProcessIdentity { pid, start_time_ticks: ticks })
            } else {
                None
            }
        }),
{
    let number = decimal(pid as nat);
    let front = number + seq![' '];
    let stat = number + seq![' ', '('] + comm + seq![')'] + tail;
    decimal_digits_write_the_number(pid as nat);
    let rest = comm + seq![')'] + tail;
    assert(stat =~= front + seq!['('] + rest);
    assert forall|i: int| 0 <= i < front.len() implies front[i] != '(' by {
        if i < number.len() {
            assert(front[i] == number[i]);
        }
    }
    lemma_find_at(stat, '(', front.len() as int);
    let before = front + seq!['('] + comm;
    assert(stat =~= before + seq![')'] + tail);
    the_last_one_is_found(before, ')', tail);
    assert(stat.skip(before.len() as int + 1) =~= tail);
    assert(stat.take(front.len() as int) =~= front);
    assert(front =~= Seq::<char>::empty() + number + seq![' ']);
    assert(!is_white(number[0]) && !is_white(number.last())) by {
        assert(number.last() == number[number.len() - 1]);
    }
    trimming_takes_white_space_off(Seq::<char>::empty(), number, seq![' ']);
    numbers_are_read_as_written(pid as nat, u32::MAX as nat);
    numbers_are_read_as_written(ticks as nat, u64::MAX as nat);
}

} // verus!
