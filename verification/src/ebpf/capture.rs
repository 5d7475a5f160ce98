//! What of a system call is captured.
use std::collections::HashMap;

use vstd::prelude::*;

use crate::buffer::from_be;
use crate::ebpf::events::{
    ConnectEvent, L7Chunk, LogChunk, TlsChunk, CHUNK_LEN, L7_CHUNK_LEN, L7_DIR_INBOUND,
    L7_DIR_OUTBOUND,
};
use crate::ebpf::policy::{capture_scopes_match, CaptureScope};

verus! {

broadcast use vstd::std_specs::hash::group_hash_axioms;

/// How many bytes of a call of that size are captured.
pub open spec fn clamped(count: u64, most: usize) -> u32 {
    if count > most {
        most as u32
    } else {
        count as u32
    }
}

fn clamp(count: u64, most: usize) -> (r: u32)
    requires
        most <= u32::MAX,
    ensures
        r == clamped(count, most),
{
    if count > most as u64 {
        most as u32
    } else {
        count as u32
    }
}

/// A size as a record says it: the real one, or as much as the field can say.
pub open spec fn real_size(count: u64) -> u32 {
    if count > u32::MAX {
        u32::MAX
    } else {
        count as u32
    }
}

fn size_of_call(count: u64) -> (r: u32)
    ensures
        r == real_size(count),
{
    if count > u32::MAX as u64 {
        u32::MAX
    } else {
        count as u32
    }
}

/// How many bytes of a record's data were captured, of a call of that size.
pub open spec fn captured_prefix(len: u32, most: usize) -> nat {
    if len > most {
        most as nat
    } else {
        len as nat
    }
}

/// The record of a write, from its first bytes.
pub fn log_chunk(scope: CaptureScope, pid: u32, fd: u64, count: u64, data: [u8; 128]) -> (r: LogChunk)
    ensures
        r == (LogChunk {
            cgroup_id: scope.cgroup_id,
            scope_cgroup_id: scope.scope_cgroup_id,
            policy_generation: scope.policy_generation,
            pid,
            fd: (fd % 0x1_0000_0000) as u32,
            len: real_size(count),
            data,
        }),
{
    LogChunk {
        cgroup_id: scope.cgroup_id,
        scope_cgroup_id: scope.scope_cgroup_id,
        policy_generation: scope.policy_generation,
        pid,
        fd: (fd % 0x1_0000_0000) as u32,
        len: size_of_call(count),
        data,
    }
}

/// A message that is to be captured: where its bytes stand and how many there are.
#[derive(Debug, Clone, Copy, PartialEq, Eq, Structural)]
pub struct Message {
    pub scope: CaptureScope,
    pub pid: u32,
    /// The file descriptor, or what tells an encrypted connection from others.
    pub channel: u64,
    pub direction: u8,
    pub buf: u64,
    pub count: u64,
}

/// The record of a message on a socket, from its first bytes.
pub fn l7_chunk(m: Message, data: [u8; 1024]) -> (r: L7Chunk)
    ensures
        r == (L7Chunk {
            cgroup_id: m.scope.cgroup_id,
            scope_cgroup_id: m.scope.scope_cgroup_id,
            policy_generation: m.scope.policy_generation,
            pid: m.pid,
            fd: (m.channel % 0x1_0000_0000) as u32,
            len: real_size(m.count),
            direction: m.direction,
            data,
        }),
{
    L7Chunk {
        cgroup_id: m.scope.cgroup_id,
        scope_cgroup_id: m.scope.scope_cgroup_id,
        policy_generation: m.scope.policy_generation,
        pid: m.pid,
        fd: (m.channel % 0x1_0000_0000) as u32,
        len: size_of_call(m.count),
        direction: m.direction,
        data,
    }
}

/// The record of a message in the clear, from its first bytes.
pub fn tls_chunk(m: Message, data: [u8; 1024]) -> (r: TlsChunk)
    ensures
        r == (TlsChunk {
            cgroup_id: m.scope.cgroup_id,
            scope_cgroup_id: m.scope.scope_cgroup_id,
            policy_generation: m.scope.policy_generation,
            ssl: m.channel,
            pid: m.pid,
            len: clamped(m.count, L7_CHUNK_LEN),
            direction: m.direction,
            data,
        }),
{
    TlsChunk {
        cgroup_id: m.scope.cgroup_id,
        scope_cgroup_id: m.scope.scope_cgroup_id,
        policy_generation: m.scope.policy_generation,
        ssl: m.channel,
        pid: m.pid,
        len: clamp(m.count, L7_CHUNK_LEN),
        direction: m.direction,
        data,
    }
}

// ---------------------------------------------------------------------------
// Vectored writes
// ---------------------------------------------------------------------------

/// The number that eight bytes write on a machine of either kind.
pub open spec fn native(s: Seq<u8>, little_endian: bool) -> nat {
    if little_endian {
        from_be(s.reverse())
    } else {
        from_be(s)
    }
}

fn native_u64(bytes: &[u8; 16], from: usize, little_endian: bool) -> (r: u64)
    requires
        from == 0 || from == 8,
    ensures
        r == native(bytes@.subrange(from as int, from + 8), little_endian),
{
    let ghost s = bytes@.subrange(from as int, from + 8);
    let ghost order = if little_endian {
        s.reverse()
    } else {
        s
    };
    let mut acc: u64 = 0;
    let mut i: usize = 0;
    while i < 8
        invariant
            i <= 8,
            from == 0 || from == 8,
            s == bytes@.subrange(from as int, from + 8),
            order == if little_endian {
                s.reverse()
            } else {
                s
            },
            acc == from_be(order.take(i as int)),
        decreases 8 - i,
    {
        let b = if little_endian {
            bytes[from + 7 - i]
        } else {
            bytes[from + i]
        };
        proof {
            let next = order.take(i + 1);
            assert(next.drop_last() =~= order.take(i as int));
            assert(next.last() == b);
            crate::buffer::lemma_from_be_bound(next);
            crate::buffer::lemma_powers();
            vstd::arithmetic::power::lemma_pow_increases(256, (i + 1) as nat, 8);
        }
        acc = acc * 256 + b as u64;
        i = i + 1;
    }
    assert(order.take(8) =~= order);
    acc
}

/// The first piece of a vectored write: where it stands and how long it is.
pub fn first_segment(iov: &[u8; 16], little_endian: bool) -> (r: (u64, u64))
    ensures
        r.0 == native(iov@.subrange(0, 8), little_endian),
        r.1 == native(iov@.subrange(8, 16), little_endian),
{
    (native_u64(iov, 0, little_endian), native_u64(iov, 8, little_endian))
}

// ---------------------------------------------------------------------------
// Connections
// ---------------------------------------------------------------------------

/// The address family of IPv4.
pub const AF_INET: u16 = 2;

/// The number that two bytes write, the first one the higher.
pub open spec fn big16(hi: u8, lo: u8) -> u16 {
    (hi * 256 + lo) as u16
}

/// The record of a connection, from the first eight bytes of the address: the
/// family in the machine's order, then the port and the IPv4 address as they go
/// over the wire. Other families are passed over.
pub fn connect_event(scope: CaptureScope, pid: u32, raw: &[u8; 8], little_endian: bool) -> (r: Option<
    ConnectEvent,
>)
    ensures
        ({
            let family = if little_endian {
                big16(raw@[1], raw@[0])
            } else {
                big16(raw@[0], raw@[1])
            };
            match r {
                Some(e) => {
                    &&& family == AF_INET
                    &&& e.cgroup_id == scope.cgroup_id
                    &&& e.scope_cgroup_id == scope.scope_cgroup_id
                    &&& e.policy_generation == scope.policy_generation
                    &&& e.pid == pid
                    &&& e.daddr@ == raw@.subrange(4, 8)
                    &&& e.dport == big16(raw@[2], raw@[3])
                    &&& e.family == family
                },
                None => family != AF_INET,
            }
        }),
{
    let family = if little_endian {
        raw[1] as u16 * 256 + raw[0] as u16
    } else {
        raw[0] as u16 * 256 + raw[1] as u16
    };
    if family != AF_INET {
        return None;
    }
    let daddr = [raw[4], raw[5], raw[6], raw[7]];
    assert(daddr@ =~= raw@.subrange(4, 8));
    Some(
        ConnectEvent {
            cgroup_id: scope.cgroup_id,
            scope_cgroup_id: scope.scope_cgroup_id,
            policy_generation: scope.policy_generation,
            pid,
            daddr,
            dport: raw[2] as u16 * 256 + raw[3] as u16,
            family,
        },
    )
}

// ---------------------------------------------------------------------------
// Messages
// ---------------------------------------------------------------------------

/// What is kept of a read between its start and its end.
#[derive(Debug, Clone, Copy, PartialEq, Eq, Structural)]
pub struct ReadArgs {
    pub buf: u64,
    /// The file descriptor, or what tells an encrypted connection from others.
    pub channel: u64,
    pub scope: CaptureScope,
}

/// What is captured of a write of `count` bytes, known when it starts.
pub fn outbound(scope: CaptureScope, pid: u32, channel: u64, buf: u64, count: u64) -> (r: Message)
    ensures
        r == (Message { scope, pid, channel, direction: L7_DIR_OUTBOUND, buf, count }),
{
    Message { scope, pid, channel, direction: L7_DIR_OUTBOUND, buf, count }
}

/// What is captured of a write into an encrypted connection; nothing of one that
/// writes nothing.
pub fn tls_outbound(scope: CaptureScope, pid: u32, ssl: u64, buf: u64, num: i64) -> (r: Option<Message>)
    ensures
        r == if num > 0 {
            Some(
                Message {
                    scope,
                    pid,
                    channel: ssl,
                    direction: L7_DIR_OUTBOUND,
                    buf,
                    count: num as u64,
                },
            )
        } else {
            None
        },
{
    if num <= 0 {
        return None;
    }
    Some(outbound(scope, pid, ssl, buf, num as u64))
}

/// The same of a write whose length cannot be negative.
pub fn tls_outbound_ex(scope: CaptureScope, pid: u32, ssl: u64, buf: u64, num: u64) -> (r: Option<
    Message,
>)
    ensures
        r == if num > 0 {
            Some(
                Message {
                    scope,
                    pid,
                    channel: ssl,
                    direction: L7_DIR_OUTBOUND,
                    buf,
                    count: num,
                },
            )
        } else {
            None
        },
{
    if num == 0 {
        return None;
    }
    Some(outbound(scope, pid, ssl, buf, num))
}

/// What is captured of a vectored write of `segments` pieces: the first piece.
/// `iov` describes it, unless it could not be read.
pub fn vectored(
    scope: CaptureScope,
    pid: u32,
    channel: u64,
    segments: u64,
    iov: Option<&[u8; 16]>,
    little_endian: bool,
) -> (r: Option<Message>)
    ensures
        match r {
            Some(m) => {
                &&& segments > 0 && iov is Some
                &&& m == (Message {
                    scope,
                    pid,
                    channel,
                    direction: L7_DIR_OUTBOUND,
                    buf: native(iov->0@.subrange(0, 8), little_endian) as u64,
                    count: native(iov->0@.subrange(8, 16), little_endian) as u64,
                })
            },
            None => segments == 0 || iov is None,
        },
{
    if segments == 0 {
        return None;
    }
    match iov {
        Some(iov) => {
            let (buf, count) = first_segment(iov, little_endian);
            Some(outbound(scope, pid, channel, buf, count))
        },
        None => None,
    }
}

/// The process of a thread: the high half of its key.
pub open spec fn process_of(key: u64) -> u32 {
    (key / 0x1_0000_0000) as u32
}

/// What is captured of a read that ended with `ret`: nothing if it read nothing,
/// and nothing unless the task may be captured by the same as when it started.
pub open spec fn inbound_of(
    key: u64,
    args: ReadArgs,
    ret: int,
    now: Option<CaptureScope>,
) -> Option<Message> {
    if ret > 0 && now == Some(args.scope) {
        Some(
            Message {
                scope: args.scope,
                pid: process_of(key),
                channel: args.channel,
                direction: L7_DIR_INBOUND,
                buf: args.buf,
                count: ret as u64,
            },
        )
    } else {
        None
    }
}

/// What is captured of a read that ended with `ret`. `key` is the thread, `now`
/// by what it may be captured at the end.
pub fn inbound(key: u64, args: ReadArgs, ret: i64, now: Option<CaptureScope>) -> (r: Option<Message>)
    ensures
        r == inbound_of(key, args, ret as int, now),
{
    if ret <= 0 {
        return None;
    }
    inbound_count(key, args, ret as u64, now)
}

/// What is captured of a read of `count` bytes.
pub fn inbound_count(key: u64, args: ReadArgs, count: u64, now: Option<CaptureScope>) -> (r: Option<
    Message,
>)
    ensures
        r == inbound_of(key, args, count as int, now),
{
    if count == 0 {
        return None;
    }
    match now {
        Some(scope) => if capture_scopes_match(scope, args.scope) {
            Some(
                Message {
                    scope,
                    pid: (key / 0x1_0000_0000) as u32,
                    channel: args.channel,
                    direction: L7_DIR_INBOUND,
                    buf: args.buf,
                    count,
                },
            )
        } else {
            None
        },
        None => None,
    }
}

/// What is captured of a read that ended with `ret`, which is 1 if it succeeded, and
/// that set down how many bytes it read, unless they could not be looked up.
pub fn inbound_ex(
    key: u64,
    args: ReadArgs,
    ret: i64,
    bytes: Option<u64>,
    now: Option<CaptureScope>,
) -> (r: Option<Message>)
    ensures
        r == match bytes {
            Some(n) => if ret == 1 {
                inbound_of(key, args, n as int, now)
            } else {
                None
            },
            None => None,
        },
{
    if ret != 1 {
        return None;
    }
    match bytes {
        Some(n) => inbound_count(key, args, n, now),
        None => None,
    }
}

// ---------------------------------------------------------------------------
// Reads under way
// ---------------------------------------------------------------------------

/// How many threads can be reading at a time.
pub const MAX_READS: usize = 10240;

/// A read that has started.
#[derive(Debug, Clone, Copy, PartialEq, Eq, Structural)]
pub struct PendingRead {
    pub args: ReadArgs,
    /// Where the number of bytes will be set down; zero where it is returned.
    pub readbytes: u64,
}

/// The reads that have started and not ended, by thread.
pub struct ReadTap {
    reads: HashMap<u64, PendingRead>,
}

impl View for ReadTap {
    type V = Map<u64, PendingRead>;

    closed spec fn view(&self) -> Map<u64, PendingRead> {
        self.reads@
    }
}

impl ReadTap {
    /// No read under way.
    pub fn new() -> (r: Self)
        ensures
            r@ == Map::<u64, PendingRead>::empty(),
    {
        ReadTap { reads: HashMap::new() }
    }

    /// Takes note of a read that starts. Where too many are under way, it is not
    /// captured.
    pub fn enter(&mut self, key: u64, read: PendingRead)
        ensures
            final(self)@ == if old(self)@.contains_key(key) || old(self)@.len() < MAX_READS {
                old(self)@.insert(key, read)
            } else {
                old(self)@
            },
    {
        if self.reads.contains_key(&key) || self.reads.len() < MAX_READS {
            self.reads.insert(key, read);
        }
    }

    /// The read of a thread that ends. It is let go of, however it ended.
    pub fn take(&mut self, key: u64) -> (r: Option<PendingRead>)
        ensures
            r == if old(self)@.contains_key(key) {
                Some(old(self)@[key])
            } else {
                None
            },
            final(self)@ == old(self)@.remove(key),
    {
        let read = match self.reads.get(&key) {
            Some(read) => *read,
            None => {
                assert(self@.remove(key) =~= self@);
                return None;
            },
        };
        self.reads.remove(&key);
        Some(read)
    }
}

// ---------------------------------------------------------------------------
// Laws
// ---------------------------------------------------------------------------

/// The length in the record of a write or a message on a socket is the real one, so
/// that a longer call shows; what was captured of it never exceeds what the record
/// holds. The record of a message in the clear says only how much was captured.
pub proof fn lengths_tell_what_was_captured(count: u64)
    ensures
        count <= u32::MAX ==> real_size(count) == count,
        captured_prefix(real_size(count), CHUNK_LEN) == if count < CHUNK_LEN {
            count as int
        } else {
            CHUNK_LEN as int
        },
        captured_prefix(real_size(count), L7_CHUNK_LEN) == clamped(count, L7_CHUNK_LEN),
        clamped(count, L7_CHUNK_LEN) <= L7_CHUNK_LEN,
{
}

/// A read that started under one policy is never captured under another.
pub proof fn a_changed_policy_drops_the_read(
    key: u64,
    args: ReadArgs,
    ret: int,
    now: CaptureScope,
)
    requires
        now != args.scope,
    ensures
        inbound_of(key, args, ret, Some(now)) is None,
{
}

} // verus!
