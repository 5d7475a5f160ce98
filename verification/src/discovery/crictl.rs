//! Runs of `crictl`: what they tell, and what they tell together.
use std::collections::HashMap;

use vstd::prelude::*;
use vstd::string::*;

use crate::discovery::container::RuntimeProcessIdentity;
use crate::discovery::cri::{
    listed_containers, listed_sandboxes, listed_views, parse_crictl_output,
    parse_crictl_pods_output, sandbox_views, CrictlContainer, PodSandbox,
};
use crate::outline::outlined;
use crate::seqs::{kept, lemma_kept_step};
use crate::strmap::{lemma_position, position, StrMap};
use crate::text::{concat, decimal, decimal_of, strings};

verus! {

broadcast use vstd::std_specs::hash::group_hash_axioms;

// ---------------------------------------------------------------------------
// Listings
// ---------------------------------------------------------------------------

/// How a run of a command ended.
pub enum CommandReply {
    /// There is no such command.
    NotInstalled,
    /// It could not be run, for the reason given.
    NotRun(String),
    /// It failed, with this on its error output.
    Failed(String),
    /// It succeeded, with this on its output.
    Output(Vec<u8>),
}

/// The containers that a listing tells of. A host without the command has no
/// runtime to ask, which is no failure. `fault` is what is wrong with an output that is
/// no listing.
pub fn containers_in_reply(reply: &CommandReply, fault: &str) -> (r: Result<
    Vec<CrictlContainer>,
    String,
>)
    ensures
        match *reply {
            CommandReply::NotInstalled => r is Ok && r->Ok_0@.len() == 0,
            CommandReply::NotRun(e) => r is Err && r->Err_0@ == "crictl not available: "@ + e@,
            CommandReply::Failed(e) => r is Err && r->Err_0@ == "crictl failed: "@ + e@,
            CommandReply::Output(output) => match listed_containers(outlined(output@, 4)) {
                Some(listed) => r is Ok && listed_views(r->Ok_0@) == listed,
                None => r is Err && r->Err_0@ == "failed to parse crictl output: "@ + fault@,
            },
        },
{
    match reply {
        CommandReply::NotInstalled => Ok(Vec::new()),
        CommandReply::NotRun(e) => Err(concat("crictl not available: ", e.as_str())),
        CommandReply::Failed(e) => Err(concat("crictl failed: ", e.as_str())),
        CommandReply::Output(output) => match parse_crictl_output(output.as_slice()) {
            Some(listed) => Ok(listed),
            None => Err(concat("failed to parse crictl output: ", fault)),
        },
    }
}

/// The sandboxes that a listing tells of; none where it fails, since containers
/// can be listed without them.
pub fn sandboxes_in_reply(reply: &CommandReply) -> (r: Vec<PodSandbox>)
    ensures
        sandbox_views(r@) == match *reply {
            CommandReply::Output(output) => match listed_sandboxes(outlined(output@, 4)) {
                Some(listed) => listed,
                None => seq![],
            },
            _ => seq![],
        },
{
    if let CommandReply::Output(output) = reply {
        if let Some(listed) = parse_crictl_pods_output(output.as_slice()) {
            return listed;
        }
    }
    let none: Vec<PodSandbox> = Vec::new();
    assert(sandbox_views(none@) =~= seq![]);
    none
}

// ---------------------------------------------------------------------------
// Inspection
// ---------------------------------------------------------------------------

/// An id of which no init process is known yet.
pub open spec fn missing_id(pids: Map<Seq<char>, u32>, id: Seq<char>) -> Option<Seq<char>> {
    if pids.contains_key(id) {
        None
    } else {
        Some(id)
    }
}

/// The containers that one call did not tell the init process of. They are
/// inspected one by one, so that one failure does not hide the others.
pub fn missing_ids(ids: &Vec<String>, pids: &StrMap<u32>) -> (r: Vec<String>)
    ensures
        strings(r@) == kept(strings(ids@), |id: Seq<char>| missing_id(pids@, id)),
{
    let ghost rows = strings(ids@);
    let ghost f = |id: Seq<char>| missing_id(pids@, id);
    let mut out: Vec<String> = Vec::new();
    let mut i: usize = 0;
    assert(strings(out@) =~= kept(rows.take(0), f));
    while i < ids.len()
        invariant
            i <= ids@.len(),
            rows == strings(ids@),
            f == (|id: Seq<char>| missing_id(pids@, id)),
            strings(out@) == kept(rows.take(i as int), f),
        decreases ids.len() - i,
    {
        proof {
            lemma_kept_step(rows, f, i as int);
            assert(rows[i as int] == ids@[i as int]@);
        }
        let ghost before = strings(out@);
        if !pids.contains_key(ids[i].as_str()) {
            out.push(ids[i].clone());
            assert(strings(out@) =~= before.push(ids@[i as int]@));
        }
        i = i + 1;
    }
    assert(rows.take(i as int) =~= rows);
    out
}

/// What inspecting one container on its own came to.
pub struct SingleInspection {
    pub id: String,
    /// The init processes that were told of, unless the inspection failed.
    pub pids: Option<StrMap<u32>>,
}

/// `pids` with what inspecting containers on their own told of them. What an
/// inspection told of another container does not count.
pub open spec fn with_singles(
    pids: Map<Seq<char>, u32>,
    singles: Seq<SingleInspection>,
) -> Map<Seq<char>, u32>
    decreases singles.len(),
{
    if singles.len() == 0 {
        pids
    } else {
        let before = with_singles(pids, singles.drop_last());
        let one = singles.last();
        match one.pids {
            Some(told) => if told@.contains_key(one.id@) {
                before.insert(one.id@, told@[one.id@])
            } else {
                before
            },
            None => before,
        }
    }
}

/// How many inspections failed.
pub open spec fn failed_singles(singles: Seq<SingleInspection>) -> nat
    decreases singles.len(),
{
    if singles.len() == 0 {
        0
    } else {
        failed_singles(singles.drop_last()) + if singles.last().pids is None {
            1nat
        } else {
            0
        }
    }
}

/// Adds what inspecting containers on their own told of them, and counts the
/// inspections that failed.
pub fn merge_singles(pids: &mut StrMap<u32>, singles: &Vec<SingleInspection>) -> (failed: usize)
    ensures
        final(pids)@ == with_singles(old(pids)@, singles@),
        failed == failed_singles(singles@),
{
    let mut failed: usize = 0;
    let mut i: usize = 0;
    assert(singles@.take(0) =~= seq![]);
    while i < singles.len()
        invariant
            i <= singles@.len(),
            failed <= i,
            pids@ == with_singles(old(pids)@, singles@.take(i as int)),
            failed == failed_singles(singles@.take(i as int)),
        decreases singles.len() - i,
    {
        assert(singles@.take(i + 1).drop_last() =~= singles@.take(i as int));
        assert(singles@.take(i + 1).last() == singles@[i as int]);
        let one = &singles[i];
        match &one.pids {
            Some(told) => {
                if let Some(pid) = told.get(one.id.as_str()) {
                    pids.insert(one.id.clone(), *pid);
                }
            },
            None => {
                failed = failed + 1;
            },
        }
        i = i + 1;
    }
    assert(singles@.take(i as int) =~= singles@);
    failed
}

/// The identity of each container's init process, where that was caught alive.
pub open spec fn identities(
    pids: Map<Seq<char>, u32>,
    captured: Map<u32, RuntimeProcessIdentity>,
) -> Map<Seq<char>, RuntimeProcessIdentity> {
    Map::new(
        |id: Seq<char>| pids.contains_key(id) && captured.contains_key(pids[id]),
        |id: Seq<char>| captured[pids[id]],
    )
}

fn identify(pids: &StrMap<u32>, captured: &HashMap<u32, RuntimeProcessIdentity>) -> (r: StrMap<
    RuntimeProcessIdentity,
>)
    ensures
        r@ == identities(pids@, captured@),
        r.distinct(),
        r.entries@.len() == 0 <==> r@ == Map::<Seq<char>, RuntimeProcessIdentity>::empty(),
{
    let mut out: StrMap<RuntimeProcessIdentity> = StrMap::new();
    let ghost want = identities(pids@, captured@);
    let mut i: usize = 0;
    while i < pids.entries.len()
        invariant
            i <= pids.entries@.len(),
            want == identities(pids@, captured@),
            out.distinct(),
            forall|id: Seq<char>| #[trigger]
                out@.contains_key(id) ==> want.contains_key(id) && out@[id] == want[id],
            forall|j: int|
                0 <= j < i && want.contains_key(#[trigger] pids.entries@[j].0@)
                    ==> out@.contains_key(pids.entries@[j].0@),
        decreases pids.entries.len() - i,
    {
        let id = pids.entries[i].0.as_str();
        if let Some(pid) = pids.get(id) {
            if let Some(identity) = captured.get(pid) {
                out.insert(id.to_owned(), *identity);
            }
        }
        proof {
            lemma_position(pids.entries@, id@);
        }
        i = i + 1;
    }
    proof {
        assert forall|id: Seq<char>| want.contains_key(id) implies #[trigger] out@.contains_key(
            id,
        ) by {
            lemma_position(pids.entries@, id);
            let at = position(pids.entries@, id);
            assert(pids.entries@[at].0@ == id);
        }
        assert(out@ =~= want);
        if out.entries@.len() > 0 {
            let id = out.entries@[0].0@;
            assert(position(out.entries@, id) == 0);
            assert(out@.contains_key(id));
        } else {
            assert(out@ =~= Map::<Seq<char>, RuntimeProcessIdentity>::empty());
        }
    }
    out
}

/// The identities of the init processes of the running containers. One container
/// that could not be inspected hides no other; inspection fails as a whole only
/// where every container's did and no process is known. Then the error is that of
/// the call for all of them, if it failed.
pub fn inspect_running_container_processes(
    containers: usize,
    batch_error: Option<String>,
    failed: usize,
    pids: &StrMap<u32>,
    captured: &HashMap<u32, RuntimeProcessIdentity>,
) -> (r: Result<StrMap<RuntimeProcessIdentity>, String>)
    ensures
        ({
            let found = identities(pids@, captured@);
            if containers > 0 && failed == containers && found == Map::<
                Seq<char>,
                RuntimeProcessIdentity,
            >::empty() {
                r is Err && r->Err_0@ == match batch_error {
                    Some(e) => e@,
                    None => "crictl inspect failed for all "@ + decimal(failed as nat)
                        + " container IDs"@,
                }
            } else {
                r is Ok && r->Ok_0@ == found
            }
        }),
{
    let processes = identify(pids, captured);
    if containers > 0 && failed == containers && processes.is_empty() {
        match batch_error {
            Some(e) => Err(e),
            None => {
                let count = decimal_of(failed as u64);
                let head = concat("crictl inspect failed for all ", count.as_str());
                Err(concat(head.as_str(), " container IDs"))
            },
        }
    } else {
        Ok(processes)
    }
}

// ---------------------------------------------------------------------------
// Laws
// ---------------------------------------------------------------------------

/// What is known of a container's init process is kept, whatever becomes of the
/// inspection of others.
pub proof fn failures_hide_no_other(
    pids: Map<Seq<char>, u32>,
    singles: Seq<SingleInspection>,
    id: Seq<char>,
)
    requires
        pids.contains_key(id),
        forall|i: int| 0 <= i < singles.len() ==> (#[trigger] singles[i]).id@ != id,
    ensures
        with_singles(pids, singles).contains_key(id),
        with_singles(pids, singles)[id] == pids[id],
    decreases singles.len(),
{
    if singles.len() > 0 {
        let before = singles.drop_last();
        assert forall|i: int| 0 <= i < before.len() implies (#[trigger] before[i]).id@ != id by {
            assert(before[i] == singles[i]);
        }
        failures_hide_no_other(pids, before, id);
        assert(singles.last() == singles[singles.len() - 1]);
    }
}

} // verus!
