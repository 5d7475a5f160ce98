//! The records that the probes hand to the agent.
use vstd::prelude::*;

verus! {

/// The length of a command's name.
pub const COMM_LEN: usize = 16;

/// How many bytes of a write are captured.
pub const CHUNK_LEN: usize = 128;

/// How many bytes of a message on a socket are captured.
pub const L7_CHUNK_LEN: usize = 1024;

/// Bytes that the watched server read: a request.
pub const L7_DIR_INBOUND: u8 = 0;

/// Bytes that the watched server wrote: a response.
pub const L7_DIR_OUTBOUND: u8 = 1;

/// A program was started.
#[derive(Clone, Copy)]
pub struct ExecEvent {
    pub pid: u32,
    pub comm: [u8; 16],
}

/// A TCP socket began to listen.
#[derive(Clone, Copy)]
pub struct ListenerEvent {
    /// The control group of the task: it tells two containers on one port apart.
    pub cgroup_id: u64,
    /// When the listening began, by the monotonic clock.
    pub observed_at_ns: u64,
    /// The number of the event among those of its CPU.
    pub sequence: u64,
    pub tgid: u32,
    pub cpu_id: u32,
    pub port: u16,
    pub family: u16,
}

/// A write, with its first bytes.
#[derive(Clone, Copy)]
pub struct LogChunk {
    pub cgroup_id: u64,
    /// The control group that the policy allows, or zero where it allows the
    /// process.
    pub scope_cgroup_id: u64,
    pub policy_generation: u64,
    pub pid: u32,
    pub fd: u32,
    /// How many bytes were written, which may be more than were captured.
    pub len: u32,
    pub data: [u8; 128],
}

/// A connection to another host.
#[derive(Clone, Copy)]
pub struct ConnectEvent {
    pub cgroup_id: u64,
    pub scope_cgroup_id: u64,
    pub policy_generation: u64,
    pub pid: u32,
    /// The address of the other host, as it goes over the wire.
    pub daddr: [u8; 4],
    pub dport: u16,
    pub family: u16,
}

/// A message on a socket, with its first bytes.
#[derive(Clone, Copy)]
pub struct L7Chunk {
    pub cgroup_id: u64,
    pub scope_cgroup_id: u64,
    pub policy_generation: u64,
    pub pid: u32,
    pub fd: u32,
    /// How many bytes the message has, which may be more than were captured.
    pub len: u32,
    pub direction: u8,
    pub data: [u8; 1024],
}

/// A message before it is encrypted or after it is decrypted, with its first
/// bytes.
#[derive(Clone, Copy)]
pub struct TlsChunk {
    pub cgroup_id: u64,
    pub scope_cgroup_id: u64,
    pub policy_generation: u64,
    /// What tells the connection from others in its process.
    pub ssl: u64,
    pub pid: u32,
    /// How many bytes were captured.
    pub len: u32,
    pub direction: u8,
    pub data: [u8; 1024],
}

} // verus!
