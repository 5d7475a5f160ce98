//! What a Docker container is described as, said of what the daemon lists and inspects.
use vstd::prelude::*;
use vstd::string::*;

use crate::discovery::docker::{
    chosen_host, cleaned_name, context_host_in, context_in, docker_container_view, env_service,
    labelled_service, own_entry, DockerDetail, DockerSummary,
};
use crate::outline::{last_value, OutlineView};
use crate::seqs::kept;
use crate::text::{strings, trimmed};

verus! {

proof fn lemma_kept_front<A, B>(a: A, rest: Seq<A>, f: spec_fn(A) -> Option<B>)
    ensures
        kept(seq![a] + rest, f) == match f(a) {
            Some(b) => seq![b] + kept(rest, f),
            None => kept(rest, f),
        },
    decreases rest.len(),
{
    let s = seq![a] + rest;
    if rest.len() == 0 {
        assert(s =~= seq![a]);
        assert(s.drop_last() =~= Seq::<A>::empty());
        assert(kept(s.drop_last(), f) =~= Seq::<B>::empty());
        assert(kept(rest, f) =~= Seq::<B>::empty());
        if let Some(b) = f(a) {
            assert(kept(s, f) =~= seq![b] + kept(rest, f));
        }
    } else {
        assert(s.last() == rest.last());
        assert(s.drop_last() =~= seq![a] + rest.drop_last());
        lemma_kept_front(a, rest.drop_last(), f);
        assert(kept(s, f) =~= match f(a) {
            Some(b) => seq![b] + kept(rest, f),
            None => kept(rest, f),
        });
    }
}

/// What is kept of two lists one after another is what is kept of each.
pub proof fn keeping_goes_item_by_item<A, B>(a: Seq<A>, b: Seq<A>, f: spec_fn(A) -> Option<B>)
    ensures
        kept(a + b, f) == kept(a, f) + kept(b, f),
    decreases b.len(),
{
    if b.len() == 0 {
        assert(a + b =~= a);
        assert(kept(a, f) + kept(b, f) =~= kept(a, f));
    } else {
        assert((a + b).drop_last() =~= a + b.drop_last());
        assert((a + b).last() == b.last());
        keeping_goes_item_by_item(a, b.drop_last(), f);
        assert(kept(a + b, f) =~= kept(a, f) + kept(b, f));
    }
}

/// What is kept of one item is what is made of it.
pub proof fn keeping_one_item<A, B>(a: A, f: spec_fn(A) -> Option<B>)
    ensures
        kept(seq![a], f) == match f(a) {
            Some(b) => seq![b],
            None => Seq::<B>::empty(),
        },
        kept(Seq::<A>::empty(), f) == Seq::<B>::empty(),
{
    lemma_kept_front(a, Seq::<A>::empty(), f);
    assert(seq![a] + Seq::<A>::empty() =~= seq![a]);
    assert(kept(Seq::<A>::empty(), f) =~= Seq::<B>::empty());
    if let Some(b) = f(a) {
        assert(seq![b] + Seq::<B>::empty() =~= seq![b]);
    }
}

/// The variable that opts a container in.
pub open spec fn opt_in() -> Seq<char> {
    "LOGPACER_SERVICE_NAME="@
}

proof fn lemma_prefixes()
    ensures
        "LOGPACER_"@.is_prefix_of(opt_in()),
        opt_in().len() == 22,
{
    reveal_strlit("LOGPACER_SERVICE_NAME=");
    reveal_strlit("LOGPACER_");
    assert(opt_in().subrange(0, 9) =~= "LOGPACER_"@);
}

/// The first entry of the environment that sets the service name decides, and an empty
/// value says nothing.
pub proof fn the_first_setting_decides(
    before: Seq<Seq<char>>,
    value: Seq<char>,
    after: Seq<Seq<char>>,
)
    requires
        forall|i: int| 0 <= i < before.len() ==> !opt_in().is_prefix_of(#[trigger] before[i]),
    ensures
        env_service(before + seq![opt_in() + value] + after) == if value.len() > 0 {
            Some(value)
        } else {
            None
        },
        env_service(before) is None,
    decreases before.len(),
{
    let all = before + seq![opt_in() + value] + after;
    if before.len() == 0 {
        let e = opt_in() + value;
        assert(all[0] == e);
        assert(e.subrange(0, opt_in().len() as int) =~= opt_in());
        assert(e.skip(opt_in().len() as int) =~= value);
    } else {
        assert(all[0] == before[0]);
        assert(all.skip(1) =~= before.skip(1) + seq![opt_in() + value] + after);
        the_first_setting_decides(before.skip(1), value, after);
    }
}

/// What is dropped from the environment sets no service name.
proof fn lemma_filter_keeps_opt_in(env: Seq<Seq<char>>)
    ensures
        env_service(kept(env, |e: Seq<char>| own_entry(e))) == env_service(env),
    decreases env.len(),
{
    let f = |e: Seq<char>| own_entry(e);
    if env.len() > 0 {
        let rest = env.skip(1);
        assert(env =~= seq![env[0]] + rest);
        lemma_kept_front(env[0], rest, f);
        lemma_filter_keeps_opt_in(rest);
        lemma_prefixes();
        if "LOGPACER_"@.is_prefix_of(env[0]) {
            let k = seq![env[0]] + kept(rest, f);
            assert(k[0] == env[0]);
            assert(k.skip(1) =~= kept(rest, f));
        } else {
            if opt_in().is_prefix_of(env[0]) {
                assert(env[0].subrange(0, 9) =~= opt_in().subrange(0, 9));
            }
        }
    } else {
        assert(kept(env, f) =~= Seq::<Seq<char>>::empty());
    }
}

/// A container opts in by the first `LOGPACER_SERVICE_NAME` of its environment, if that is
/// not empty; nothing else is consent. Without it the service is named by labels, and
/// else by the container.
pub proof fn only_the_variable_opts_in(
    raw: DockerSummary,
    detail: DockerDetail,
    short: Seq<char>,
    before: Seq<Seq<char>>,
    value: Seq<char>,
    after: Seq<Seq<char>>,
)
    requires
        forall|i: int| 0 <= i < before.len() ==> !opt_in().is_prefix_of(#[trigger] before[i]),
    ensures
        ({
            let c = docker_container_view(raw, Some(detail), short);
            &&& strings(detail.env@) == before + seq![opt_in() + value] + after && value.len() > 0
                ==> c.service_name_explicit && c.service_name == value
            &&& strings(detail.env@) == before + seq![opt_in() + value] + after && value.len() == 0
                ==> !c.service_name_explicit
            &&& strings(detail.env@) == before ==> !c.service_name_explicit
            &&& !docker_container_view(raw, None, short).service_name_explicit
        }),
{
    let env = strings(detail.env@);
    lemma_filter_keeps_opt_in(env);
    the_first_setting_decides(before, value, after);
    assert(env_service(Seq::<Seq<char>>::empty()) is None);
}

/// Without consent the service's name is that of Compose, else of Swarm, else of the
/// Kubernetes container, else the container's.
pub proof fn labels_name_services_in_turn(labels: Map<Seq<char>, Seq<char>>, name: Seq<char>)
    ensures
        ({
            let compose = "com.docker.compose.service"@;
            let swarm = "com.docker.swarm.service.name"@;
            let k8s = "io.kubernetes.container.name"@;
            let s = labelled_service(labels, name);
            &&& labels.contains_key(compose) ==> s == labels[compose]
            &&& !labels.contains_key(compose) && labels.contains_key(swarm) ==> s == labels[swarm]
            &&& !labels.contains_key(compose) && !labels.contains_key(swarm)
                && labels.contains_key(k8s) ==> s == labels[k8s]
            &&& !labels.contains_key(compose) && !labels.contains_key(swarm)
                && !labels.contains_key(k8s) ==> s == name
        }),
{
}

/// A container is what the daemon lists: its first name without the slash, its image and
/// state, its labels, its ids. An inspection adds the path of the log and the agent's own
/// environment; a running container without a path has the json-file driver's.
pub proof fn containers_are_what_the_daemon_lists(
    raw: DockerSummary,
    detail: Option<DockerDetail>,
    short: Seq<char>,
    name: Seq<char>,
)
    requires
        name.len() == 0 || name[0] != '/',
    ensures
        ({
            let c = docker_container_view(raw, detail, short);
            &&& c.id == short
            &&& c.container_id == raw.id@
            &&& raw.names@.len() > 0 && raw.names@[0]@ == seq!['/'] + name ==> c.name == name
            &&& raw.names@.len() > 0 && raw.names@[0]@ == name ==> c.name == name
            &&& raw.names@.len() == 0 && short == name ==> c.name == name
            &&& raw.image is Some ==> c.image == raw.image->0@
            &&& raw.image is None ==> c.image == "unknown"@
            &&& raw.state is Some ==> c.state == raw.state->0@
            &&& raw.state is None ==> c.state == "unknown"@
            &&& c.runtime == "docker"@
            &&& forall|key: Seq<char>| #[trigger]
                c.labels.contains_key(key) <==> raw.labels@.contains_key(key)
            &&& forall|key: Seq<char>| #[trigger]
                c.labels.contains_key(key) ==> c.labels[key] == raw.labels@[key]@
            &&& c.namespace.len() == 0 && c.deployment.len() == 0 && c.pod_name.len() == 0
                && c.container_name.len() == 0
            &&& detail is None ==> c.log_path.len() == 0 && c.env.len() == 0
            &&& detail is Some && detail->0.log_path@.len() > 0 ==> c.log_path
                == detail->0.log_path@
            &&& detail is Some && detail->0.log_path@.len() == 0 ==> c.log_path
                == "/var/lib/docker/containers/"@ + raw.id@ + seq!['/'] + raw.id@ + "-json.log"@
        }),
{
    reveal_strlit("/");
    assert("/"@ =~= seq!['/']);
    let slashed = seq!['/'] + name;
    assert(slashed.subrange(0, 1) =~= seq!['/']);
    assert(slashed.skip(1) =~= name);
    assert(cleaned_name(slashed) == name);
    if seq!['/'].is_prefix_of(name) {
        assert(name.subrange(0, 1)[0] == '/');
        assert(name[0] == '/');
    }
    assert(cleaned_name(name) == name);
}

/// Just the entries of the environment are kept that begin with the agent's own prefix,
/// in their order.
pub proof fn own_entries_are_kept_in_order(before: Seq<Seq<char>>, entry: Seq<char>)
    ensures
        ({
            let f = |e: Seq<char>| own_entry(e);
            kept(before + seq![entry], f) == if "LOGPACER_"@.is_prefix_of(entry) {
                kept(before, f).push(entry)
            } else {
                kept(before, f)
            }
        }),
{
    let f = |e: Seq<char>| own_entry(e);
    assert((before + seq![entry]).drop_last() =~= before);
    assert((before + seq![entry]).last() == entry);
}

/// The first address that is there counts: the container host's, then the context's, then
/// the default; blank ones are passed over and white space goes.
pub proof fn addresses_are_chosen_in_turn(
    host: Option<Seq<char>>,
    context: Option<Seq<char>>,
    default: Option<Seq<char>>,
)
    ensures
        host is Some && trimmed(host->0).len() > 0 ==> chosen_host(host, context, default) == Some(
            trimmed(host->0),
        ),
        (host is None || trimmed(host->0).len() == 0) && context is Some && trimmed(
            context->0,
        ).len() > 0 ==> chosen_host(host, context, default) == Some(trimmed(context->0)),
        (host is None || trimmed(host->0).len() == 0) && (context is None || trimmed(
            context->0,
        ).len() == 0) && default is Some && trimmed(default->0).len() > 0 ==> chosen_host(
            host,
            context,
            default,
        ) == Some(trimmed(default->0)),
        (host is None || trimmed(host->0).len() == 0) && (context is None || trimmed(
            context->0,
        ).len() == 0) && (default is None || trimmed(default->0).len() == 0) ==> chosen_host(
            host,
            context,
            default,
        ) is None,
{
}

/// The CLI's configuration names a context in `currentContext`; a blank one is none.
pub proof fn configurations_name_a_context(
    others: Seq<(Seq<char>, OutlineView)>,
    name: Seq<char>,
    rest: Seq<(Seq<char>, OutlineView)>,
)
    requires
        forall|i: int| 0 <= i < others.len() ==> (#[trigger] others[i]).0 != "currentContext"@,
        forall|i: int| 0 <= i < rest.len() ==> (#[trigger] rest[i]).0 != "currentContext"@,
    ensures
        context_in(
            OutlineView::Members(
                others + seq![("currentContext"@, OutlineView::Text(name))] + rest,
            ),
        ) == if trimmed(name).len() > 0 {
            Some(trimmed(name))
        } else {
            None
        },
        context_in(OutlineView::Members(others + rest)) is None,
{
    crate::laws::cri::lemma_value_stands(
        others,
        "currentContext"@,
        OutlineView::Text(name),
        rest,
    );
    let config = OutlineView::Members(
        others + seq![("currentContext"@, OutlineView::Text(name))] + rest,
    );
    let fields = seq!["currentContext"@];
    assert(fields[0] == "currentContext"@);
    assert(config.is_record(fields));
    lemma_absent(others + rest, "currentContext"@);
}

proof fn lemma_absent(members: Seq<(Seq<char>, OutlineView)>, key: Seq<char>)
    requires
        forall|i: int| 0 <= i < members.len() ==> (#[trigger] members[i]).0 != key,
    ensures
        last_value(members, key) is None,
    decreases members.len(),
{
    if members.len() > 0 {
        assert(members[members.len() - 1].0 != key);
        assert forall|i: int| 0 <= i < members.len() - 1 implies (
        #[trigger] members.drop_last()[i]).0 != key by {
            assert(members.drop_last()[i] == members[i]);
        }
        lemma_absent(members.drop_last(), key);
    }
}

/// The description of a context gives the host of its `docker` endpoint, if it is of the
/// context that is asked for.
pub proof fn descriptions_give_the_host(
    name: Seq<char>,
    asked: Seq<char>,
    host: Seq<char>,
)
    ensures
        ({
            let endpoint = OutlineView::Members(seq![("Host"@, OutlineView::Text(host))]);
            let meta = OutlineView::Members(
                seq![
                    ("Name"@, OutlineView::Text(name)),
                    ("Endpoints"@, OutlineView::Members(seq![("docker"@, endpoint)])),
                ],
            );
            context_host_in(meta, asked) == if name == asked && trimmed(host).len() > 0 {
                Some(trimmed(host))
            } else {
                None
            }
        }),
{
    reveal_strlit("Name");
    reveal_strlit("Endpoints");
    assert("Name"@.len() == 4 && "Endpoints"@.len() == 9);
    let endpoint = OutlineView::Members(seq![("Host"@, OutlineView::Text(host))]);
    let none = Seq::<(Seq<char>, OutlineView)>::empty();
    let ends = seq![("docker"@, endpoint)];
    let n = seq![("Name"@, OutlineView::Text(name))];
    let e = seq![("Endpoints"@, OutlineView::Members(ends))];
    crate::laws::cri::lemma_value_stands(none, "Name"@, OutlineView::Text(name), e);
    crate::laws::cri::lemma_value_stands(n, "Endpoints"@, OutlineView::Members(ends), none);
    crate::laws::cri::lemma_value_stands(none, "Host"@, OutlineView::Text(host), none);
    crate::laws::cri::lemma_value_stands(none, "docker"@, endpoint, none);
    assert(none + n + e =~= n + e);
    assert(n + e + none =~= n + e);
    assert(none + seq![("Host"@, OutlineView::Text(host))] + none =~= seq![
        ("Host"@, OutlineView::Text(host)),
    ]);
    assert(none + ends + none =~= ends);
    assert(n + e =~= seq![
        ("Name"@, OutlineView::Text(name)),
        ("Endpoints"@, OutlineView::Members(ends)),
    ]);
    let fields = seq!["Name"@, "Endpoints"@];
    assert(fields[0] == "Name"@ && fields[1] == "Endpoints"@);
    let meta = OutlineView::Members(n + e);
    assert(meta.is_record(fields));
    assert(seq!["Host"@][0] == "Host"@);
    assert(endpoint.is_record(seq!["Host"@]));
    assert(crate::discovery::docker::endpoint(endpoint));
    assert(crate::outline::optional_text(endpoint.field(seq!["Host"@], 0)) == Some(Some(host)));
}

} // verus!
