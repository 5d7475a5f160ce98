//! What is captured of the tasks of a host, said of words, groups and calls.
use vstd::prelude::*;

use crate::buffer::from_be;
use crate::ebpf::capture::{
    big16, captured_prefix, clamped, inbound_of, native, process_of, real_size, Message, ReadArgs,
    AF_INET, MAX_READS,
};
use crate::ebpf::events::{
    ListenerEvent, CHUNK_LEN, L7_CHUNK_LEN, L7_DIR_INBOUND, L7_DIR_OUTBOUND,
};
use crate::ebpf::listeners::{
    finished, is_listener, next_count, ListenOutcome, ListenerTap, MAX_CANDIDATES,
};
use crate::ebpf::policy::{
    ancestor, anchors, capture_scope_of, consistent, deepest, generation_of, has_level, scope_of,
    slot_of, unpacked, CaptureScope, CgroupPolicy,
};

verus! {

// ---------------------------------------------------------------------------
// Policy
// ---------------------------------------------------------------------------

/// Twice as many as at the level before; one at the first.
pub open spec fn weight(level: nat) -> nat
    decreases level,
{
    if level <= 1 {
        1
    } else {
        2 * weight((level - 1) as nat)
    }
}

/// A set with one level more holds that level and those above it that it held: level 1 is
/// the lowest bit, each further level the next one.
pub proof fn levels_are_bits(mask: nat, level: nat)
    ensures
        has_level(2 * mask + 1, 1),
        !has_level(2 * mask, 1),
        level >= 1 ==> has_level(2 * mask, level + 1) == has_level(mask, level),
        level >= 1 ==> has_level(2 * mask + 1, level + 1) == has_level(mask, level),
        !has_level(mask, 0),
        level >= 1 ==> has_level(weight(level), level),
    decreases level,
{
    assert((2 * mask) / 2 == mask);
    assert((2 * mask + 1) / 2 == mask);
    assert((2 * mask) % 2 == 0);
    assert((2 * mask + 1) % 2 == 1);
    if level >= 2 {
        levels_are_bits(mask, (level - 1) as nat);
        let w = weight((level - 1) as nat);
        assert((2 * w) / 2 == w);
        assert(has_level(weight(level), level) == has_level(w, (level - 1) as nat));
    }
}

/// A word holds the set of levels in its low half, then the least and the greatest in a
/// byte each.
pub proof fn words_hold_levels(mask: u64, min: u64, max: u64, rest: u64, packed: u64)
    requires
        mask < 0x1_0000_0000,
        min < 0x100,
        max < 0x100,
        rest < 0x1_0000,
        packed == mask + min * 0x1_0000_0000 + max * 0x100_0000_0000 + rest * 0x1_0000_0000_0000,
    ensures
        unpacked(packed).mask == mask,
        unpacked(packed).min == min,
        unpacked(packed).max == max,
{
}

/// A word selects one of two slots by its highest bit and a generation by the others.
pub proof fn words_select_slots(slot: u64, generation: u64, selector: u64)
    requires
        slot <= 1,
        generation < 0x8000_0000_0000_0000,
        selector == slot * 0x8000_0000_0000_0000 + generation,
    ensures
        slot_of(selector) == slot,
        generation_of(selector) == generation,
{
}

/// Levels agree if the least and the greatest are among them and lie between 1 and 32.
pub proof fn levels_have_bounds(packed: u64, level: nat)
    requires
        consistent(unpacked(packed)),
    ensures
        1 <= unpacked(packed).min <= unpacked(packed).max <= 32,
        has_level(unpacked(packed).mask as nat, unpacked(packed).min as nat),
        has_level(unpacked(packed).mask as nat, unpacked(packed).max as nat),
        1 <= level <= 32 && has_level(unpacked(packed).mask as nat, level) ==> unpacked(packed).min
            <= level <= unpacked(packed).max,
{
}

/// Whether a control group stands in the slot in force, under the generation in force.
pub open spec fn in_force(policy: CgroupPolicy, selector: u64, id: u64) -> bool {
    if selector < 0x8000_0000_0000_0000 {
        policy.allowed_a@.contains_key(id) && policy.allowed_a@[id] == selector
    } else {
        policy.allowed_b@.contains_key(id) && policy.allowed_b@[id] == selector
            - 0x8000_0000_0000_0000
    }
}

/// The word with the levels in force.
pub open spec fn levels_in_force(policy: CgroupPolicy, selector: u64) -> u64 {
    if selector < 0x8000_0000_0000_0000 {
        policy.levels_a
    } else {
        policy.levels_b
    }
}

proof fn lemma_in_force(policy: CgroupPolicy, selector: u64, id: u64)
    ensures
        policy.allows(slot_of(selector), id, generation_of(selector)) == in_force(
            policy,
            selector,
            id,
        ),
        policy.levels(slot_of(selector)) == levels_in_force(policy, selector),
{
    if selector < 0x8000_0000_0000_0000 {
        assert(slot_of(selector) == 0 && generation_of(selector) == selector);
    } else {
        assert(slot_of(selector) == 1);
        assert(generation_of(selector) == selector - 0x8000_0000_0000_0000);
    }
}

/// A task in a group that is allowed is captured by that group, unless it is the root.
pub proof fn allowed_groups_are_captured(
    policy: CgroupPolicy,
    selector: u64,
    id: u64,
    ancestors: Seq<u64>,
)
    requires
        policy.selector == Some(selector),
        selector != 0,
        selector != 0x8000_0000_0000_0000,
        consistent(unpacked(levels_in_force(policy, selector))),
        ancestors.len() > 0,
        ancestors[0] != 0,
        id != 0,
        id != ancestors[0],
        in_force(policy, selector, id),
    ensures
        scope_of(policy, Some(selector), id, ancestors) == Some((id, generation_of(selector))),
{
    lemma_in_force(policy, selector, id);
    if selector < 0x8000_0000_0000_0000 {
        assert(generation_of(selector) == selector);
    } else {
        assert(generation_of(selector) == selector - 0x8000_0000_0000_0000);
    }
}

proof fn lemma_deepest_at(
    policy: CgroupPolicy,
    slot: u64,
    generation: u64,
    mask: u64,
    ancestors: Seq<u64>,
    level: int,
    min: int,
    at: int,
)
    requires
        1 <= min <= at <= level,
        anchors(policy, slot, generation, mask, ancestors, at),
        forall|k: int|
            at < k <= level ==> !#[trigger] anchors(policy, slot, generation, mask, ancestors, k),
    ensures
        deepest(policy, slot, generation, mask, ancestors, level, min) == Some(
            ancestor(ancestors, at),
        ),
    decreases level,
{
    if level > at {
        assert(!anchors(policy, slot, generation, mask, ancestors, level));
        lemma_deepest_at(policy, slot, generation, mask, ancestors, level - 1, min, at);
    }
}

/// A task in a group that is not allowed is captured by its deepest ancestor that is
/// allowed, at a level that counts.
pub proof fn the_deepest_allowed_ancestor_captures(
    policy: CgroupPolicy,
    selector: u64,
    id: u64,
    ancestors: Seq<u64>,
    at: int,
)
    requires
        policy.selector == Some(selector),
        selector != 0,
        selector != 0x8000_0000_0000_0000,
        consistent(unpacked(levels_in_force(policy, selector))),
        ancestors.len() > 0,
        ancestors[0] != 0,
        id != 0,
        !in_force(policy, selector, id),
        1 <= at < ancestors.len(),
        at <= 32,
        has_level(unpacked(levels_in_force(policy, selector)).mask as nat, at as nat),
        ancestors[at] != 0,
        ancestors[at] != ancestors[0],
        in_force(policy, selector, ancestors[at]),
        forall|k: int|
            at < k < ancestors.len() ==> !has_level(
                unpacked(levels_in_force(policy, selector)).mask as nat,
                k as nat,
            ) || #[trigger] ancestors[k] == 0 || ancestors[k] == ancestors[0] || !in_force(
                policy,
                selector,
                ancestors[k],
            ),
    ensures
        scope_of(policy, Some(selector), id, ancestors) == Some(
            (ancestors[at], generation_of(selector)),
        ),
{
    let slot = slot_of(selector);
    let generation = generation_of(selector);
    let levels = unpacked(levels_in_force(policy, selector));
    lemma_in_force(policy, selector, id);
    lemma_in_force(policy, selector, ancestors[at]);
    assert(has_level(levels.mask as nat, at as nat));
    assert(levels.min <= at <= levels.max);
    assert(anchors(policy, slot, generation, levels.mask, ancestors, at));
    assert forall|k: int| at < k <= levels.max implies !#[trigger] anchors(
        policy,
        slot,
        generation,
        levels.mask,
        ancestors,
        k,
    ) by {
        if k < ancestors.len() {
            lemma_in_force(policy, selector, ancestors[k]);
        }
    }
    lemma_deepest_at(
        policy,
        slot,
        generation,
        levels.mask,
        ancestors,
        levels.max as int,
        levels.min as int,
        at,
    );
    if selector < 0x8000_0000_0000_0000 {
        assert(generation == selector);
    } else {
        assert(generation == selector - 0x8000_0000_0000_0000);
    }
}

/// What is captured by a group carries the task's own group, the one that allows it and
/// the generation; a task that no group allows may be captured by its process, under the
/// generation of that, which is not zero.
pub proof fn groups_come_before_processes(
    policy: CgroupPolicy,
    reread: Option<u64>,
    id: u64,
    ancestors: Seq<u64>,
    pid_generation: Option<u64>,
)
    ensures
        ({
            let scope = scope_of(policy, reread, id, ancestors);
            let r = capture_scope_of(policy, reread, id, ancestors, pid_generation);
            &&& scope is Some ==> r is Some && r->0.cgroup_id == id && r->0.scope_cgroup_id
                == (scope->0).0 && r->0.policy_generation == (scope->0).1
            &&& scope is None && pid_generation is Some && pid_generation->0 != 0 ==> r is Some
                && r->0.cgroup_id == id && r->0.scope_cgroup_id == 0 && r->0.policy_generation
                == pid_generation->0
            &&& scope is None && (pid_generation is None || pid_generation->0 == 0) ==> r is None
        }),
{
}

// ---------------------------------------------------------------------------
// Calls
// ---------------------------------------------------------------------------

/// At most 128 bytes of a write and 1024 of a message are captured; a size that no field
/// can say is the greatest that it can.
pub proof fn captures_are_bounded(count: u64)
    ensures
        count <= 1024 ==> clamped(count, L7_CHUNK_LEN) == count,
        count > 1024 ==> clamped(count, L7_CHUNK_LEN) == 1024,
        count <= 128 ==> captured_prefix(count as u32, CHUNK_LEN) == count,
        count > 128 && count <= 0xffff_ffff ==> captured_prefix(count as u32, CHUNK_LEN) == 128,
        count <= 0xffff_ffff ==> real_size(count) == count,
        count > 0xffff_ffff ==> real_size(count) == 0xffff_ffff,
        L7_DIR_INBOUND == 0,
        L7_DIR_OUTBOUND == 1,
        MAX_READS == 10240,
{
}

/// A number stands in eight bytes with the highest first, or on the other kind of machine
/// with the lowest first; in two bytes of a port the first is the higher.
pub proof fn numbers_stand_in_bytes(s: Seq<u8>, hi: u8, lo: u8)
    requires
        s.len() == 8,
    ensures
        native(s, false) == s[0] * 0x100_0000_0000_0000 + s[1] * 0x1_0000_0000_0000 + s[2]
            * 0x100_0000_0000 + s[3] * 0x1_0000_0000 + s[4] * 0x100_0000 + s[5] * 0x1_0000 + s[6]
            * 0x100 + s[7],
        native(s, true) == s[7] * 0x100_0000_0000_0000 + s[6] * 0x1_0000_0000_0000 + s[5]
            * 0x100_0000_0000 + s[4] * 0x1_0000_0000 + s[3] * 0x100_0000 + s[2] * 0x1_0000 + s[1]
            * 0x100 + s[0],
        big16(hi, lo) == 256 * hi + lo,
        AF_INET == 2,
{
    lemma_eight(s);
    lemma_eight(s.reverse());
}

proof fn lemma_eight(s: Seq<u8>)
    requires
        s.len() == 8,
    ensures
        from_be(s) == s[0] * 0x100_0000_0000_0000 + s[1] * 0x1_0000_0000_0000 + s[2]
            * 0x100_0000_0000 + s[3] * 0x1_0000_0000 + s[4] * 0x100_0000 + s[5] * 0x1_0000 + s[6]
            * 0x100 + s[7],
{
    let a = s.drop_last();
    let b = a.drop_last();
    let c = b.drop_last();
    let d = c.drop_last();
    let e = d.drop_last();
    let f = e.drop_last();
    let g = f.drop_last();
    let h = g.drop_last();
    assert(h.len() == 0);
    assert(from_be(h) == 0);
    assert(from_be(g) == s[0]);
    assert(from_be(f) == s[0] * 256 + s[1]);
    assert(from_be(e) == s[0] * 0x1_0000 + s[1] * 0x100 + s[2]);
    assert(from_be(d) == s[0] * 0x100_0000 + s[1] * 0x1_0000 + s[2] * 0x100 + s[3]);
    assert(from_be(c) == s[0] * 0x1_0000_0000 + s[1] * 0x100_0000 + s[2] * 0x1_0000 + s[3] * 0x100
        + s[4]);
    assert(from_be(b) == s[0] * 0x100_0000_0000 + s[1] * 0x1_0000_0000 + s[2] * 0x100_0000 + s[3]
        * 0x1_0000 + s[4] * 0x100 + s[5]);
    assert(from_be(a) == s[0] * 0x1_0000_0000_0000 + s[1] * 0x100_0000_0000 + s[2] * 0x1_0000_0000
        + s[3] * 0x100_0000 + s[4] * 0x1_0000 + s[5] * 0x100 + s[6]);
}

/// A read that read something is captured, as what came in, by the thread's process, if
/// the task may still be captured by the same; else nothing is.
pub proof fn reads_are_captured_when_they_end(
    process: u32,
    thread: u32,
    key: u64,
    args: ReadArgs,
    ret: u64,
    other: Option<CaptureScope>,
)
    requires
        key == process * 0x1_0000_0000 + thread,
    ensures
        ret > 0 ==> inbound_of(key, args, ret as int, Some(args.scope)) == Some(
            Message {
                scope: args.scope,
                pid: process,
                channel: args.channel,
                direction: 0,
                buf: args.buf,
                count: ret,
            },
        ),
        inbound_of(key, args, 0, Some(args.scope)) is None,
        inbound_of(key, args, -(ret as int), Some(args.scope)) is None,
        other != Some(args.scope) ==> inbound_of(key, args, ret as int, other) is None,
        process_of(key) == process,
{
}

// ---------------------------------------------------------------------------
// Listeners
// ---------------------------------------------------------------------------

/// A listener is a TCP socket on IPv4 or IPv6 that begins to listen on a port, in a known
/// group, and nothing else is.
pub proof fn listeners_are_known(state: i32, protocol: u16, port: u16, family: u16, group: u64)
    ensures
        port != 0 && group != 0 ==> is_listener(10, 6, port, 2, group) && is_listener(
            10,
            6,
            port,
            10,
            group,
        ),
        state != 10 ==> !is_listener(state, protocol, port, family, group),
        protocol != 6 ==> !is_listener(state, protocol, port, family, group),
        family != 2 && family != 10 ==> !is_listener(state, protocol, port, family, group),
        !is_listener(state, protocol, 0, family, group),
        !is_listener(state, protocol, port, family, 0),
        MAX_CANDIDATES == 1024,
{
}

/// A staged listener is published just if the call succeeded and there is room, with the
/// CPU, the time and the CPU's next number, and all else as it was staged; for want of room
/// it is counted as dropped. Counts go up by one and begin again at the top.
pub proof fn listeners_are_published_in_order(
    tap: ListenerTap,
    event: ListenerEvent,
    ret: i64,
    room: bool,
    now_ns: u64,
    cpu_id: u32,
    n: u64,
)
    ensures
        ({
            let (after, outcome) = finished(tap, Some(event), ret, room, now_ns, cpu_id);
            &&& ret != 0 ==> after == tap && outcome is Nothing
            &&& ret == 0 && !room ==> outcome is Dropped && after.published == tap.published
                && after.drops == next_count(tap.drops)
            &&& ret == 0 && room ==> {
                &&& outcome is Published
                &&& after.drops == tap.drops
                &&& after.published == next_count(tap.published)
                &&& outcome->Published_0.sequence == after.published
                &&& outcome->Published_0.observed_at_ns == now_ns
                &&& outcome->Published_0.cpu_id == cpu_id
                &&& outcome->Published_0.port == event.port
                &&& outcome->Published_0.family == event.family
                &&& outcome->Published_0.tgid == event.tgid
                &&& outcome->Published_0.cgroup_id == event.cgroup_id
            }
        }),
        finished(tap, None, ret, room, now_ns, cpu_id) == (tap, ListenOutcome::Nothing),
        n < 0xffff_ffff_ffff_ffff ==> next_count(n) == n + 1,
        next_count(0xffff_ffff_ffff_ffff) == 0,
{
}

} // verus!
