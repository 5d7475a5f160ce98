//! Noticing TCP listeners.
//!
//! A socket that begins to listen is staged under its thread. Only when the system
//! call has succeeded is it published, under the next number of its CPU.
use std::collections::HashMap;

use vstd::prelude::*;

use crate::ebpf::events::ListenerEvent;

verus! {

broadcast use vstd::std_specs::hash::group_hash_axioms;

/// The state of a socket that listens.
pub const TCP_LISTEN: i32 = 10;

/// The protocol number of TCP.
pub const IPPROTO_TCP: u16 = 6;

/// How many threads can stage a listener at a time.
pub const MAX_CANDIDATES: usize = 1024;

/// Whether a change of a socket's state is a TCP listener in a known control
/// group, on IPv4 or IPv6.
pub open spec fn is_listener(
    new_state: i32,
    protocol: u16,
    port: u16,
    family: u16,
    cgroup_id: u64,
) -> bool {
    new_state == TCP_LISTEN && protocol == IPPROTO_TCP && port != 0 && (family == 2 || family == 10)
        && cgroup_id != 0
}

/// The listener that a change of a socket's state is, not yet published.
pub fn listener_candidate(
    new_state: i32,
    protocol: u16,
    port: u16,
    family: u16,
    cgroup_id: u64,
    tgid: u32,
) -> (r: Option<ListenerEvent>)
    ensures
        r == if is_listener(new_state, protocol, port, family, cgroup_id) {
            Some(
                ListenerEvent {
                    cgroup_id,
                    observed_at_ns: 0,
                    sequence: 0,
                    tgid,
                    cpu_id: 0,
                    port,
                    family,
                },
            )
        } else {
            None
        },
{
    if new_state != TCP_LISTEN {
        return None;
    }
    if protocol != IPPROTO_TCP {
        return None;
    }
    if port == 0 || (family != 2 && family != 10) {
        return None;
    }
    if cgroup_id == 0 {
        return None;
    }
    Some(
        ListenerEvent {
            cgroup_id,
            observed_at_ns: 0,
            sequence: 0,
            tgid,
            cpu_id: 0,
            port,
            family,
        },
    )
}

/// The count after another one, which wraps round at the top.
pub open spec fn next_count(n: u64) -> u64 {
    if n == u64::MAX {
        0
    } else {
        (n + 1) as u64
    }
}

/// The listeners whose system calls are under way, on whatever CPU, by thread.
pub struct Candidates {
    staged: HashMap<u64, ListenerEvent>,
}

impl View for Candidates {
    type V = Map<u64, ListenerEvent>;

    closed spec fn view(&self) -> Map<u64, ListenerEvent> {
        self.staged@
    }
}

impl Candidates {
    /// No listener is staged.
    pub fn new() -> (r: Self)
        ensures
            r@ == Map::<u64, ListenerEvent>::empty(),
    {
        Candidates { staged: HashMap::new() }
    }
}

impl Default for Candidates {
    fn default() -> (r: Self)
        ensures
            r@ == Map::<u64, ListenerEvent>::empty(),
    {
        Self::new()
    }
}

/// What one CPU counts of listeners. What is staged is shared by all of them: a call
/// may begin on one and end on another.
#[derive(Debug, Clone, Copy, PartialEq, Eq, Structural)]
pub struct ListenerTap {
    /// The number of the last one published.
    pub published: u64,
    /// How many could not be staged or published.
    pub drops: u64,
}

/// What becomes of a listener when its system call ends.
#[derive(Clone, Copy)]
pub enum ListenOutcome {
    /// No listener was staged, or the call failed.
    Nothing,
    /// The listener is published.
    Published(ListenerEvent),
    /// There was no room for the record: the listener is counted as dropped.
    Dropped,
}

impl ListenerTap {
    /// Nothing counted yet.
    pub fn new() -> (r: Self)
        ensures
            r == (ListenerTap { published: 0, drops: 0 }),
    {
        ListenerTap { published: 0, drops: 0 }
    }

    /// Stages a listener under its thread, and says whether there was room. If not,
    /// this CPU counts it as dropped.
    pub fn stage(&mut self, candidates: &mut Candidates, key: u64, event: ListenerEvent) -> (r: bool)
        ensures
            r == (old(candidates)@.contains_key(key) || old(candidates)@.len() < MAX_CANDIDATES),
            final(candidates)@ == if r {
                old(candidates)@.insert(key, event)
            } else {
                old(candidates)@
            },
            *final(self) == (ListenerTap {
                published: old(self).published,
                drops: if r {
                    old(self).drops
                } else {
                    next_count(old(self).drops)
                },
            }),
    {
        if !candidates.staged.contains_key(&key) && candidates.staged.len() >= MAX_CANDIDATES {
            self.drops = self.drops.wrapping_add(1);
            return false;
        }
        candidates.staged.insert(key, event);
        true
    }

    /// What becomes of a listener when its system call ends on this CPU with `ret`.
    /// The staged one goes in any case; it is published only if the call succeeded,
    /// under the CPU's next number, and only if there is `room` for the record.
    pub fn finish(
        &mut self,
        candidates: &mut Candidates,
        key: u64,
        ret: i64,
        room: bool,
        now_ns: u64,
        cpu_id: u32,
    ) -> (r: ListenOutcome)
        ensures
            final(candidates)@ == old(candidates)@.remove(key),
            (*final(self), r) == finished(
                *old(self),
                if old(candidates)@.contains_key(key) {
                    Some(old(candidates)@[key])
                } else {
                    None
                },
                ret,
                room,
                now_ns,
                cpu_id,
            ),
    {
        let event = match candidates.staged.get(&key) {
            Some(event) => *event,
            None => {
                assert(candidates@.remove(key) =~= candidates@);
                return ListenOutcome::Nothing;
            },
        };
        candidates.staged.remove(&key);
        if ret != 0 {
            return ListenOutcome::Nothing;
        }
        if !room {
            self.drops = self.drops.wrapping_add(1);
            return ListenOutcome::Dropped;
        }
        self.published = self.published.wrapping_add(1);
        ListenOutcome::Published(
            ListenerEvent {
                cgroup_id: event.cgroup_id,
                observed_at_ns: now_ns,
                sequence: self.published,
                tgid: event.tgid,
                cpu_id,
                port: event.port,
                family: event.family,
            },
        )
    }
}

/// What a CPU counts, and what becomes of a staged listener, when the system call
/// ends on that CPU.
pub open spec fn finished(
    tap: ListenerTap,
    staged: Option<ListenerEvent>,
    ret: i64,
    room: bool,
    now_ns: u64,
    cpu_id: u32,
) -> (ListenerTap, ListenOutcome) {
    match staged {
        Some(event) => if ret != 0 {
            (tap, ListenOutcome::Nothing)
        } else if !room {
            (ListenerTap { drops: next_count(tap.drops), ..tap }, ListenOutcome::Dropped)
        } else {
            let published = next_count(tap.published);
            (
                ListenerTap { published, ..tap },
                ListenOutcome::Published(
                    ListenerEvent { observed_at_ns: now_ns, sequence: published, cpu_id, ..event },
                ),
            )
        },
        None => (tap, ListenOutcome::Nothing),
    }
}

impl Default for ListenerTap {
    fn default() -> (r: Self)
        ensures
            r == (ListenerTap { published: 0, drops: 0 }),
    {
        Self::new()
    }
}

/// A listener that was staged on one CPU is published by the CPU on which its system
/// call succeeds, under that CPU's next number; the first CPU's counts stay.
pub proof fn listeners_follow_their_threads(
    candidates: Map<u64, ListenerEvent>,
    key: u64,
    event: ListenerEvent,
    last: ListenerTap,
    now_ns: u64,
    cpu_id: u32,
)
    ensures
        ({
            let staged = candidates.insert(key, event);
            let (tap, outcome) = finished(last, Some(staged[key]), 0, true, now_ns, cpu_id);
            &&& outcome == ListenOutcome::Published(
                ListenerEvent { observed_at_ns: now_ns, sequence: tap.published, cpu_id, ..event },
            )
            &&& tap.published == next_count(last.published)
            &&& !staged.remove(key).contains_key(key)
        }),
{
}

} // verus!
