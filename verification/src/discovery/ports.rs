//! Listening network ports.
use vstd::prelude::*;
use vstd::string::*;

use crate::order::{
    lemma_sorted_views, sorted_unique, sorted_unique_by, str_less, SortKey, Sortable,
};
use crate::seqs::{kept, lemma_kept_step};
use crate::text::{
    after_last, ascii_lowered, contains, lines, lines_of, occurs, opt_str_view, opt_view,
    parse_radix, parse_u16, parse_u32, parse_u64, parsed, rest_after_last, split_whitespace, str_eq,
    strings, strip_prefix, strip_suffix, strs, to_ascii_lowercase, trim, trimmed, words,
};

verus! {

/// A discovered listening port.
pub struct ListeningPort {
    pub port: u16,
    pub protocol: String,
    pub process: String,
    pub pid: u32,
}

/// What a listening port is.
#[verifier::ext_equal]
pub struct PortView {
    pub port: u16,
    pub protocol: Seq<char>,
    pub process: Seq<char>,
    pub pid: u32,
}

impl View for ListeningPort {
    type V = PortView;

    open spec fn view(&self) -> PortView {
        PortView {
            port: self.port,
            protocol: self.protocol@,
            process: self.process@,
            pid: self.pid,
        }
    }
}

/// What the ports of a list are.
pub open spec fn port_views(v: Seq<ListeningPort>) -> Seq<PortView> {
    v.map_values(|p: ListeningPort| p@)
}

/// Ports sorted by number and protocol.
pub open spec fn port_key(p: PortView) -> SortKey {
    SortKey { major: p.port as int, first: p.protocol, second: seq![], third: seq![], minor: 0 }
}

/// Ports sorted by number, protocol and owner. The owner is part of the key, so
/// that distinct owners of one port are all kept: a pool that shares it, or a
/// proxy and the container process behind the same published port.
pub open spec fn owner_key(p: PortView) -> SortKey {
    SortKey { major: p.port as int, first: p.protocol, second: seq![], third: seq![], minor: p.pid as int }
}

struct ByPort(ListeningPort);

struct ByOwner(ListeningPort);

impl Sortable for ByPort {
    closed spec fn sort_key(&self) -> SortKey {
        port_key(self.0@)
    }

    fn precedes(&self, other: &Self) -> (r: bool) {
        proof {
            crate::order::lemma_lex_irreflexive(self.0.protocol@);
        }
        self.0.port < other.0.port || (self.0.port == other.0.port && str_less(
            self.0.protocol.as_str(),
            other.0.protocol.as_str(),
        ))
    }
}

impl Sortable for ByOwner {
    closed spec fn sort_key(&self) -> SortKey {
        owner_key(self.0@)
    }

    fn precedes(&self, other: &Self) -> (r: bool) {
        proof {
            crate::order::lemma_lex_irreflexive(self.0.protocol@);
        }
        if self.0.port != other.0.port {
            self.0.port < other.0.port
        } else if !str_eq(self.0.protocol.as_str(), other.0.protocol.as_str()) {
            str_less(self.0.protocol.as_str(), other.0.protocol.as_str())
        } else {
            self.0.pid < other.0.pid
        }
    }
}

/// The ports sorted by number and protocol, the first of each.
fn distinct_ports(ports: Vec<ListeningPort>) -> (r: Vec<ListeningPort>)
    ensures
        sorted_unique_by(port_views(ports@), port_views(r@), |p: PortView| port_key(p)),
{
    let ghost all = ports@;
    let mut items: Vec<ByPort> = Vec::new();
    for p in iter: ports
        invariant
            iter.seq() == all,
            items@.len() == iter.index(),
            forall|i: int| 0 <= i < items@.len() ==> (#[trigger] items@[i]).0 == all[i],
    {
        items.push(ByPort(p));
    }
    let ghost before = items@;
    let sorted = sorted_unique(items);
    let ghost after = sorted@;
    let mut out: Vec<ListeningPort> = Vec::new();
    for item in iter: sorted
        invariant
            iter.seq() == after,
            out@.len() == iter.index(),
            forall|i: int| 0 <= i < out@.len() ==> #[trigger] out@[i] == after[i].0,
    {
        out.push(item.0);
    }
    proof {
        let f = |t: ByPort| t.0@;
        let key = |p: PortView| port_key(p);
        lemma_sorted_views(before, after, f, key);
        assert(before.map_values(f) =~= port_views(all));
        assert(after.map_values(f) =~= port_views(out@));
    }
    out
}

/// The ports sorted by number, protocol and owner, the first of each.
fn distinct_owned_ports(ports: Vec<ListeningPort>) -> (r: Vec<ListeningPort>)
    ensures
        sorted_unique_by(port_views(ports@), port_views(r@), |p: PortView| owner_key(p)),
{
    let ghost all = ports@;
    let mut items: Vec<ByOwner> = Vec::new();
    for p in iter: ports
        invariant
            iter.seq() == all,
            items@.len() == iter.index(),
            forall|i: int| 0 <= i < items@.len() ==> (#[trigger] items@[i]).0 == all[i],
    {
        items.push(ByOwner(p));
    }
    let ghost before = items@;
    let sorted = sorted_unique(items);
    let ghost after = sorted@;
    let mut out: Vec<ListeningPort> = Vec::new();
    for item in iter: sorted
        invariant
            iter.seq() == after,
            out@.len() == iter.index(),
            forall|i: int| 0 <= i < out@.len() ==> #[trigger] out@[i] == after[i].0,
    {
        out.push(item.0);
    }
    proof {
        let f = |t: ByOwner| t.0@;
        let key = |p: PortView| owner_key(p);
        lemma_sorted_views(before, after, f, key);
        assert(before.map_values(f) =~= port_views(all));
        assert(after.map_values(f) =~= port_views(out@));
    }
    out
}

// ---------------------------------------------------------------------------
// Kernel tables
// ---------------------------------------------------------------------------

/// The inode in the target of a link of the form `kind:[inode]`.
pub open spec fn linked_inode(link: Seq<char>, kind: Seq<char>) -> Option<nat> {
    let prefix = kind + ":["@;
    let rest = link.skip(prefix.len() as int);
    if prefix.is_prefix_of(link) && "]"@.is_suffix_of(rest) {
        parsed(rest.take(rest.len() - "]"@.len()), 10, u64::MAX as nat)
    } else {
        None
    }
}

/// The inode in the target of a link of the form `kind:[inode]`, such as
/// `socket:[12345]` or `net:[4026531840]`.
pub fn link_inode(link: &str, kind: &str) -> (r: Option<u64>)
    ensures
        match r {
            Some(n) => linked_inode(link@, kind@) == Some(n as nat),
            None => linked_inode(link@, kind@) is None,
        },
{
    let prefix = crate::text::concat(kind, ":[");
    match strip_prefix(link, prefix.as_str()) {
        Some(rest) => match strip_suffix(rest, "]") {
            Some(number) => parse_u64(number),
            None => None,
        },
        None => None,
    }
}

/// The local port and the socket inode of a row of `/proc/net/tcp` that is in
/// the listening state. Of the columns, the second holds the local address, the
/// fourth the state, and the tenth the inode.
pub open spec fn listen_row(line: Seq<char>) -> Option<(u16, u64)> {
    let cols = words(line);
    if cols.len() < 10 || cols[3] != "0A"@ {
        None
    } else {
        let port = parsed(after_last(cols[1], ':'), 16, u16::MAX as nat);
        let inode = parsed(cols[9], 10, u64::MAX as nat);
        if port is Some && inode is Some {
            Some((port->0 as u16, inode->0 as u64))
        } else {
            None
        }
    }
}

/// What follows the first of some rows.
pub open spec fn after_heading(rows: Seq<Seq<char>>) -> Seq<Seq<char>> {
    if rows.len() == 0 {
        seq![]
    } else {
        rows.skip(1)
    }
}

fn parse_listen_row(line: &str) -> (r: Option<(u16, u64)>)
    ensures
        r == listen_row(line@),
{
    let cols = split_whitespace(line);
    assert(strs(cols@).len() == cols@.len());
    if cols.len() < 10 {
        return None;
    }
    assert(forall|i: int| 0 <= i < cols@.len() ==> strs(cols@)[i] == #[trigger] cols@[i]@);
    if !str_eq(cols[3], "0A") {
        return None;
    }
    let port = parse_radix(rest_after_last(cols[1], ':'), 16, u16::MAX as u64);
    let inode = parse_u64(cols[9]);
    match (port, inode) {
        (Some(port), Some(inode)) => Some((port as u16, inode)),
        _ => None,
    }
}

/// The local ports and socket inodes of the listening rows of `/proc/net/tcp`,
/// whose first line is a heading.
pub fn listen_ports_from_proc_net_tcp(table: &str) -> (r: Vec<(u16, u64)>)
    ensures
        r@ == kept(after_heading(lines(table@)), |line: Seq<char>| listen_row(line)),
{
    let all = lines_of(table);
    let mut out: Vec<(u16, u64)> = Vec::new();
    let ghost texts = strs(all@);
    assert(texts.len() == all@.len());
    if all.len() == 0 {
        return out;
    }
    let ghost rows = texts.skip(1);
    let ghost f = |line: Seq<char>| listen_row(line);
    let mut i: usize = 1;
    assert(out@ =~= kept(rows.take(0), f));
    while i < all.len()
        invariant
            1 <= i <= all@.len(),
            texts == strs(all@),
            rows == texts.skip(1),
            f == (|line: Seq<char>| listen_row(line)),
            out@ == kept(rows.take(i - 1), f),
        decreases all.len() - i,
    {
        proof {
            lemma_kept_step(rows, f, i - 1);
            assert(rows[i - 1] == all@[i as int]@);
        }
        match parse_listen_row(all[i]) {
            Some(row) => {
                out.push(row);
            },
            None => {},
        }
        i = i + 1;
    }
    assert(rows.take(i - 1) =~= rows);
    out
}

/// A socket of a kernel table.
pub struct SocketRow {
    pub port: u16,
    pub inode: u64,
    /// Whether the socket is in the listening state. A UDP socket has none.
    pub listening: bool,
}

/// The process that holds a socket open.
pub struct SocketOwner {
    pub inode: u64,
    pub pid: u32,
    pub process: String,
}

/// What an owner is.
#[verifier::ext_equal]
pub struct OwnerView {
    pub inode: u64,
    pub pid: u32,
    pub process: Seq<char>,
}

impl View for SocketOwner {
    type V = OwnerView;

    open spec fn view(&self) -> OwnerView {
        OwnerView { inode: self.inode, pid: self.pid, process: self.process@ }
    }
}

/// What owners are.
pub open spec fn owner_views(owners: Seq<SocketOwner>) -> Seq<OwnerView> {
    owners.map_values(|o: SocketOwner| o@)
}

/// What was read of a process.
pub struct ProcessFacts {
    pub pid: u32,
    /// What the kernel calls it, as it stands in its file.
    pub comm: String,
    /// The target of the link to its network namespace, if it could be read.
    pub namespace: Option<String>,
    /// The targets of the links to what it holds open.
    pub open_files: Vec<String>,
}

/// The process of a directory of the kernel's, by the directory's name.
pub fn process_of_directory(name: &str) -> (r: Option<u32>)
    ensures
        match r {
            Some(pid) => parsed(name@, 10, u32::MAX as nat) == Some(pid as nat),
            None => parsed(name@, 10, u32::MAX as nat) is None,
        },
{
    parse_u32(name)
}

/// The owner of the socket that a link of a process leads to, if it is one.
pub open spec fn link_owner(p: ProcessFacts, link: Seq<char>) -> Option<OwnerView> {
    match linked_inode(link, "socket"@) {
        Some(inode) => Some(
            OwnerView { inode: inode as u64, pid: p.pid, process: trimmed(p.comm@) },
        ),
        None => None,
    }
}

/// The owners of the sockets that a process holds open.
pub open spec fn process_owners(p: ProcessFacts) -> Seq<OwnerView> {
    kept(strings(p.open_files@), |link: Seq<char>| link_owner(p, link))
}

/// The owners of the sockets that processes hold open, in the order of the processes.
pub open spec fn all_owners(processes: Seq<ProcessFacts>) -> Seq<OwnerView>
    decreases processes.len(),
{
    if processes.len() == 0 {
        seq![]
    } else {
        all_owners(processes.drop_last()) + process_owners(processes.last())
    }
}

fn push_owners(out: &mut Vec<SocketOwner>, p: &ProcessFacts)
    ensures
        owner_views(final(out)@) == owner_views(old(out)@) + process_owners(*p),
{
    let ghost all = strings(p.open_files@);
    let ghost f = |link: Seq<char>| link_owner(*p, link);
    let ghost start = owner_views(out@);
    let process = trim(p.comm.as_str());
    let mut i: usize = 0;
    assert(kept(all.take(0), f) =~= seq![]);
    assert(owner_views(out@) =~= start + kept(all.take(0), f));
    while i < p.open_files.len()
        invariant
            i <= p.open_files@.len(),
            all == strings(p.open_files@),
            f == (|link: Seq<char>| link_owner(*p, link)),
            process@ == trimmed(p.comm@),
            owner_views(out@) == start + kept(all.take(i as int), f),
        decreases p.open_files.len() - i,
    {
        proof {
            lemma_kept_step(all, f, i as int);
            assert(all[i as int] == p.open_files@[i as int]@);
        }
        let ghost before = owner_views(out@);
        if let Some(inode) = link_inode(p.open_files[i].as_str(), "socket") {
            let owner = SocketOwner { inode, pid: p.pid, process: process.to_owned() };
            out.push(owner);
            assert(owner_views(out@) =~= before.push(owner@));
            assert(owner_views(out@) =~= start + kept(all.take(i + 1), f));
        }
        i = i + 1;
    }
    assert(all.take(i as int) =~= all);
}

/// The owners of the sockets that processes hold open. Of several owners of a socket
/// the last one counts.
pub fn socket_owners(processes: &Vec<ProcessFacts>) -> (r: Vec<SocketOwner>)
    ensures
        owner_views(r@) == all_owners(processes@),
{
    let mut out: Vec<SocketOwner> = Vec::new();
    let mut i: usize = 0;
    assert(owner_views(out@) =~= all_owners(processes@.take(0)));
    while i < processes.len()
        invariant
            i <= processes@.len(),
            owner_views(out@) == all_owners(processes@.take(i as int)),
        decreases processes.len() - i,
    {
        assert(processes@.take(i + 1).drop_last() =~= processes@.take(i as int));
        push_owners(&mut out, &processes[i]);
        i = i + 1;
    }
    assert(processes@.take(i as int) =~= processes@);
    out
}

/// The network namespace of a process, if it is known.
pub open spec fn namespace_of(p: ProcessFacts) -> Option<nat> {
    match p.namespace {
        Some(link) => linked_inode(link@, "net"@),
        None => None,
    }
}

/// Whether some process is in a network namespace.
pub open spec fn some_in(processes: Seq<ProcessFacts>, namespace: nat) -> bool {
    exists|i: int|
        0 <= i < processes.len() && namespace_of(#[trigger] processes[i]) == Some(namespace)
}

/// The processes through which the other network namespaces are looked into: of each
/// namespace but the own one the first process.
pub open spec fn sweeping(processes: Seq<ProcessFacts>, own: Option<nat>) -> Seq<u32>
    decreases processes.len(),
{
    if processes.len() == 0 {
        seq![]
    } else {
        let before = sweeping(processes.drop_last(), own);
        match namespace_of(processes.last()) {
            Some(n) => if Some(n) != own && !some_in(processes.drop_last(), n) {
                before.push(processes.last().pid)
            } else {
                before
            },
            None => before,
        }
    }
}

fn read_namespace(link: Option<&str>) -> (r: Option<u64>)
    ensures
        match r {
            Some(n) => link is Some && linked_inode(link->0@, "net"@) == Some(n as nat),
            None => link is None || linked_inode(link->0@, "net"@) is None,
        },
{
    match link {
        Some(link) => link_inode(link, "net"),
        None => None,
    }
}

fn as_link<'a>(link: &'a Option<String>) -> (r: Option<&'a str>)
    ensures
        opt_str_view(r) == opt_view(*link),
{
    match link {
        Some(s) => Some(s.as_str()),
        None => None,
    }
}

/// The processes through which the other network namespaces are looked into. `own` is
/// the target of the link to the own one.
pub fn namespaces_to_sweep(processes: &Vec<ProcessFacts>, own: Option<&str>) -> (r: Vec<u32>)
    ensures
        r@ == sweeping(
            processes@,
            match own {
                Some(link) => linked_inode(link@, "net"@),
                None => None,
            },
        ),
{
    let mine = read_namespace(own);
    let ghost own_number = match own {
        Some(link) => linked_inode(link@, "net"@),
        None => None,
    };
    let mut seen: Vec<u64> = Vec::new();
    let mut out: Vec<u32> = Vec::new();
    let mut i: usize = 0;
    while i < processes.len()
        invariant
            i <= processes@.len(),
            match mine {
                Some(n) => own_number == Some(n as nat),
                None => own_number is None,
            },
            out@ == sweeping(processes@.take(i as int), own_number),
            forall|n: u64|
                #[trigger] seen@.contains(n) <==> some_in(processes@.take(i as int), n as nat),
        decreases processes.len() - i,
    {
        let ghost before = processes@.take(i as int);
        let ghost upto = processes@.take(i + 1);
        let ghost seen_before = seen@;
        assert(upto.drop_last() =~= before);
        assert(upto.last() == processes@[i as int]);
        let namespace = read_namespace(as_link(&processes[i].namespace));
        assert(match namespace {
            Some(n) => namespace_of(processes@[i as int]) == Some(n as nat),
            None => namespace_of(processes@[i as int]) is None,
        });
        if let Some(n) = namespace {
            let known = contains_namespace(&seen, n);
            let is_own = match mine {
                Some(m) => m == n,
                None => false,
            };
            if !is_own && !known {
                out.push(processes[i].pid);
            }
            seen.push(n);
        }
        proof {
            assert forall|n: u64|
                #[trigger] seen@.contains(n) <==> some_in(upto, n as nat) by {
                if some_in(before, n as nat) {
                    let k = choose|k: int|
                        0 <= k < before.len() && namespace_of(#[trigger] before[k]) == Some(n as nat);
                    assert(upto[k] == before[k]);
                }
                if seen_before.contains(n) {
                    let k = choose|k: int| 0 <= k < seen_before.len() && seen_before[k] == n;
                    assert(seen@[k] == n);
                }
                if namespace == Some(n) {
                    assert(upto[i as int] == processes@[i as int]);
                    assert(seen@[seen_before.len() as int] == n);
                }
                if some_in(upto, n as nat) {
                    let k = choose|k: int|
                        0 <= k < upto.len() && namespace_of(#[trigger] upto[k]) == Some(n as nat);
                    if k < i {
                        assert(before[k] == upto[k]);
                    }
                }
                if seen@.contains(n) {
                    let k = choose|k: int| 0 <= k < seen@.len() && seen@[k] == n;
                    if k < seen_before.len() {
                        assert(seen_before[k] == n);
                    }
                }
            }
        }
        i = i + 1;
    }
    assert(processes@.take(i as int) =~= processes@);
    out
}

fn contains_namespace(seen: &Vec<u64>, n: u64) -> (r: bool)
    ensures
        r == seen@.contains(n),
{
    let mut i: usize = 0;
    while i < seen.len()
        invariant
            i <= seen@.len(),
            forall|j: int| 0 <= j < i ==> seen@[j] != n,
        decreases seen.len() - i,
    {
        if seen[i] == n {
            return true;
        }
        i = i + 1;
    }
    false
}

/// The place of the last owner of a socket, or -1 if none is known.
pub open spec fn owner_place(owners: Seq<SocketOwner>, inode: u64) -> int
    decreases owners.len(),
{
    if owners.len() == 0 {
        -1
    } else if owners.last().inode == inode {
        owners.len() - 1
    } else {
        owner_place(owners.drop_last(), inode)
    }
}

pub proof fn lemma_owner_place(owners: Seq<SocketOwner>, inode: u64)
    ensures
        -1 <= owner_place(owners, inode) < owners.len(),
    decreases owners.len(),
{
    if owners.len() > 0 && owners.last().inode != inode {
        lemma_owner_place(owners.drop_last(), inode);
    }
}

/// The port that a socket listens on, with its owner as far as it is known.
pub open spec fn owned_port(
    owners: Seq<SocketOwner>,
    port: u16,
    inode: u64,
    protocol: Seq<char>,
) -> PortView {
    let at = owner_place(owners, inode);
    PortView {
        port,
        protocol,
        process: if at < 0 {
            seq![]
        } else {
            owners[at].process@
        },
        pid: if at < 0 {
            0
        } else {
            owners[at].pid
        },
    }
}

/// A TCP row of the host's own tables: kept if it listens.
pub open spec fn tcp_port(owners: Seq<SocketOwner>, row: SocketRow) -> Option<PortView> {
    if row.listening {
        Some(owned_port(owners, row.port, row.inode, "tcp"@))
    } else {
        None
    }
}

/// A UDP row of the host's own tables: kept if it is bound.
pub open spec fn udp_port(owners: Seq<SocketOwner>, row: SocketRow) -> Option<PortView> {
    if row.port != 0 {
        Some(owned_port(owners, row.port, row.inode, "udp"@))
    } else {
        None
    }
}

/// A listening row of another network namespace: kept if its owner is known,
/// for a row without one adds nothing to the host's own tables.
pub open spec fn swept_port(owners: Seq<SocketOwner>, row: (u16, u64)) -> Option<PortView> {
    if owner_place(owners, row.1) >= 0 {
        Some(owned_port(owners, row.0, row.1, "tcp"@))
    } else {
        None
    }
}

fn find_owner(owners: &Vec<SocketOwner>, inode: u64) -> (r: Option<usize>)
    ensures
        match r {
            Some(i) => owner_place(owners@, inode) == i && i < owners@.len(),
            None => owner_place(owners@, inode) == -1,
        },
{
    let mut i: usize = owners.len();
    assert(owners@.take(i as int) =~= owners@);
    while i > 0
        invariant
            i <= owners@.len(),
            owner_place(owners@, inode) == owner_place(owners@.take(i as int), inode),
        decreases i,
    {
        let ghost t = owners@.take(i as int);
        assert(t.last() == owners@[i - 1]);
        assert(t.drop_last() =~= owners@.take(i - 1));
        if owners[i - 1].inode == inode {
            return Some(i - 1);
        }
        i = i - 1;
    }
    None
}

fn make_port(owners: &Vec<SocketOwner>, port: u16, inode: u64, protocol: &str) -> (r: ListeningPort)
    ensures
        r@ == owned_port(owners@, port, inode, protocol@),
{
    match find_owner(owners, inode) {
        Some(i) => ListeningPort {
            port,
            protocol: protocol.to_owned(),
            process: owners[i].process.clone(),
            pid: owners[i].pid,
        },
        None => ListeningPort {
            port,
            protocol: protocol.to_owned(),
            process: String::new(),
            pid: 0,
        },
    }
}

/// The listening ports of a Linux host: the TCP and UDP sockets of its own
/// tables, and the TCP sockets of the other network namespaces, which the
/// host's tables do not show. What is reported twice is kept once.
pub fn native_ports(
    tcp: &Vec<SocketRow>,
    udp: &Vec<SocketRow>,
    swept: &Vec<(u16, u64)>,
    owners: &Vec<SocketOwner>,
) -> (r: Vec<ListeningPort>)
    ensures
        sorted_unique_by(
            kept(tcp@, |row: SocketRow| tcp_port(owners@, row)) + kept(
                udp@,
                |row: SocketRow| udp_port(owners@, row),
            ) + kept(swept@, |row: (u16, u64)| swept_port(owners@, row)),
            port_views(r@),
            |p: PortView| owner_key(p),
        ),
{
    let mut out: Vec<ListeningPort> = Vec::new();
    let ghost ft = |row: SocketRow| tcp_port(owners@, row);
    let ghost fu = |row: SocketRow| udp_port(owners@, row);
    let ghost fs = |row: (u16, u64)| swept_port(owners@, row);
    let mut i: usize = 0;
    assert(port_views(out@) =~= kept(tcp@.take(0), ft));
    while i < tcp.len()
        invariant
            i <= tcp@.len(),
            ft == (|row: SocketRow| tcp_port(owners@, row)),
            port_views(out@) == kept(tcp@.take(i as int), ft),
        decreases tcp.len() - i,
    {
        proof {
            lemma_kept_step(tcp@, ft, i as int);
        }
        let ghost before = port_views(out@);
        if tcp[i].listening {
            let p = make_port(owners, tcp[i].port, tcp[i].inode, "tcp");
            out.push(p);
            assert(port_views(out@) =~= before.push(p@));
        }
        i = i + 1;
    }
    assert(tcp@.take(i as int) =~= tcp@);
    let ghost a = port_views(out@);
    i = 0;
    assert(port_views(out@) =~= a + kept(udp@.take(0), fu));
    while i < udp.len()
        invariant
            i <= udp@.len(),
            fu == (|row: SocketRow| udp_port(owners@, row)),
            port_views(out@) == a + kept(udp@.take(i as int), fu),
        decreases udp.len() - i,
    {
        proof {
            lemma_kept_step(udp@, fu, i as int);
        }
        let ghost before = port_views(out@);
        let ghost seen = kept(udp@.take(i as int), fu);
        if udp[i].port != 0 {
            let p = make_port(owners, udp[i].port, udp[i].inode, "udp");
            out.push(p);
            assert(port_views(out@) =~= before.push(p@));
            assert((a + seen).push(p@) =~= a + seen.push(p@));
        }
        i = i + 1;
    }
    assert(udp@.take(i as int) =~= udp@);
    let ghost b = port_views(out@);
    i = 0;
    assert(port_views(out@) =~= b + kept(swept@.take(0), fs));
    while i < swept.len()
        invariant
            i <= swept@.len(),
            fs == (|row: (u16, u64)| swept_port(owners@, row)),
            port_views(out@) == b + kept(swept@.take(i as int), fs),
        decreases swept.len() - i,
    {
        proof {
            lemma_kept_step(swept@, fs, i as int);
        }
        let ghost before = port_views(out@);
        let ghost seen = kept(swept@.take(i as int), fs);
        let row = swept[i];
        if find_owner(owners, row.1).is_some() {
            let p = make_port(owners, row.0, row.1, "tcp");
            out.push(p);
            assert(port_views(out@) =~= before.push(p@));
            assert((b + seen).push(p@) =~= b + seen.push(p@));
        }
        i = i + 1;
    }
    assert(swept@.take(i as int) =~= swept@);
    distinct_owned_ports(out)
}

// ---------------------------------------------------------------------------
// Command output
// ---------------------------------------------------------------------------

/// The port in a line of `lsof -i -P -n`: command, process id, and further on
/// the protocol and an address that ends in the port.
pub open spec fn lsof_row(line: Seq<char>) -> Option<PortView> {
    let parts = words(line);
    if parts.len() < 9 {
        None
    } else {
        let pid = parsed(parts[1], 10, u32::MAX as nat);
        let protocol = ascii_lowered(parts[7]);
        let port = parsed(after_last(parts[8], ':'), 10, u16::MAX as nat);
        if pid is Some && port is Some && (protocol == "tcp"@ || protocol == "udp"@) {
            Some(
                PortView {
                    port: port->0 as u16,
                    protocol,
                    process: parts[0],
                    pid: pid->0 as u32,
                },
            )
        } else {
            None
        }
    }
}

pub fn parse_lsof_line(line: &str) -> (r: Option<ListeningPort>)
    ensures
        match r {
            Some(p) => lsof_row(line@) == Some(p@),
            None => lsof_row(line@) is None,
        },
{
    let parts = split_whitespace(line);
    assert(strs(parts@).len() == parts@.len());
    if parts.len() < 9 {
        return None;
    }
    assert(forall|i: int| 0 <= i < parts@.len() ==> strs(parts@)[i] == #[trigger] parts@[i]@);
    let pid = match parse_u32(parts[1]) {
        Some(pid) => pid,
        None => {
            return None;
        },
    };
    let protocol = to_ascii_lowercase(parts[7]);
    if !str_eq(protocol.as_str(), "tcp") && !str_eq(protocol.as_str(), "udp") {
        return None;
    }
    match parse_u16(rest_after_last(parts[8], ':')) {
        Some(port) => Some(
            ListeningPort { port, protocol, process: parts[0].to_owned(), pid },
        ),
        None => None,
    }
}

/// The port in a line that says it listens, or that is of UDP.
pub open spec fn lsof_listener(line: Seq<char>) -> Option<PortView> {
    if occurs(line, "(LISTEN)"@) || occurs(line, " UDP "@) {
        lsof_row(line)
    } else {
        None
    }
}

/// The listening ports in the output of `lsof -i -P -n`, whose first line is a
/// heading; each port and protocol once.
pub fn parse_lsof_output(output: &str) -> (r: Vec<ListeningPort>)
    ensures
        sorted_unique_by(
            kept(after_heading(lines(output@)), |line: Seq<char>| lsof_listener(line)),
            port_views(r@),
            |p: PortView| port_key(p),
        ),
{
    let all = lines_of(output);
    let mut out: Vec<ListeningPort> = Vec::new();
    let ghost texts = strs(all@);
    assert(texts.len() == all@.len());
    let ghost rows = after_heading(texts);
    let ghost f = |line: Seq<char>| lsof_listener(line);
    let mut i: usize = if all.len() > 0 {
        1
    } else {
        0
    };
    let start: usize = i;
    assert(port_views(out@) =~= kept(rows.take(0), f));
    while i < all.len()
        invariant
            start <= i <= all@.len(),
            start == if all@.len() > 0 {
                1int
            } else {
                0
            },
            texts == strs(all@),
            rows == after_heading(texts),
            f == (|line: Seq<char>| lsof_listener(line)),
            port_views(out@) == kept(rows.take(i - start), f),
        decreases all.len() - i,
    {
        proof {
            lemma_kept_step(rows, f, i - start);
            assert(rows[i - start] == all@[i as int]@);
        }
        let ghost before = port_views(out@);
        if contains(all[i], "(LISTEN)") || contains(all[i], " UDP ") {
            match parse_lsof_line(all[i]) {
                Some(p) => {
                    out.push(p);
                    assert(port_views(out@) =~= before.push(p@));
                },
                None => {},
            }
        }
        i = i + 1;
    }
    assert(rows.take(i - start) =~= rows);
    distinct_ports(out)
}

/// The port in a line of `netstat -ano`: a listening TCP socket, whose fourth
/// column is its state and whose fifth is its owner, or a UDP socket, whose
/// fourth column is its owner.
pub open spec fn netstat_row(line: Seq<char>) -> Option<PortView> {
    let parts = words(line);
    let protocol = ascii_lowered(parts[0]);
    let tcp = protocol == "tcp"@ && parts.len() >= 5 && parts[3] == "LISTENING"@;
    if parts.len() < 4 || !(tcp || protocol == "udp"@) {
        None
    } else {
        let owner = if tcp {
            parts[4]
        } else {
            parts[3]
        };
        let pid = parsed(owner, 10, u32::MAX as nat);
        let port = parsed(after_last(parts[1], ':'), 10, u16::MAX as nat);
        if pid is Some && port is Some {
            Some(
                PortView {
                    port: port->0 as u16,
                    protocol,
                    process: seq![],
                    pid: pid->0 as u32,
                },
            )
        } else {
            None
        }
    }
}

fn parse_netstat_line(line: &str) -> (r: Option<ListeningPort>)
    ensures
        match r {
            Some(p) => netstat_row(line@) == Some(p@),
            None => netstat_row(line@) is None,
        },
{
    let parts = split_whitespace(line);
    assert(strs(parts@).len() == parts@.len());
    if parts.len() < 4 {
        return None;
    }
    assert(forall|i: int| 0 <= i < parts@.len() ==> strs(parts@)[i] == #[trigger] parts@[i]@);
    let protocol = to_ascii_lowercase(parts[0]);
    proof {
        reveal_strlit("tcp");
        reveal_strlit("udp");
        assert("tcp"@[0] != "udp"@[0]);
    }
    let owner = if str_eq(protocol.as_str(), "tcp") {
        if parts.len() < 5 || !str_eq(parts[3], "LISTENING") {
            return None;
        }
        parts[4]
    } else if str_eq(protocol.as_str(), "udp") {
        parts[3]
    } else {
        return None;
    };
    match (parse_u32(owner), parse_u16(rest_after_last(parts[1], ':'))) {
        (Some(pid), Some(port)) => Some(
            ListeningPort { port, protocol, process: String::new(), pid },
        ),
        _ => None,
    }
}

/// The listening ports in the output of `netstat -ano`, each port and protocol
/// once. Netstat names no process.
pub fn parse_netstat_ano(output: &str) -> (r: Vec<ListeningPort>)
    ensures
        sorted_unique_by(
            kept(lines(output@), |line: Seq<char>| netstat_row(line)),
            port_views(r@),
            |p: PortView| port_key(p),
        ),
{
    let all = lines_of(output);
    let mut out: Vec<ListeningPort> = Vec::new();
    let ghost rows = strs(all@);
    let ghost f = |line: Seq<char>| netstat_row(line);
    let mut i: usize = 0;
    assert(port_views(out@) =~= kept(rows.take(0), f));
    while i < all.len()
        invariant
            i <= all@.len(),
            rows == strs(all@),
            f == (|line: Seq<char>| netstat_row(line)),
            port_views(out@) == kept(rows.take(i as int), f),
        decreases all.len() - i,
    {
        proof {
            lemma_kept_step(rows, f, i as int);
            assert(rows[i as int] == all@[i as int]@);
        }
        let ghost before = port_views(out@);
        match parse_netstat_line(all[i]) {
            Some(p) => {
                out.push(p);
                assert(port_views(out@) =~= before.push(p@));
            },
            None => {},
        }
        i = i + 1;
    }
    assert(rows.take(i as int) =~= rows);
    distinct_ports(out)
}

/// Distinct owners of one port are all reported: a listener whose owner differs
/// from that of another is not taken for a repetition of it.
pub proof fn distinct_owners_survive(rows: Seq<PortView>, r: Seq<PortView>, i: int)
    requires
        sorted_unique_by(rows, r, |p: PortView| owner_key(p)),
        0 <= i < rows.len(),
    ensures
        exists|j: int|
            0 <= j < r.len() && #[trigger] r[j].port == rows[i].port && r[j].protocol
                == rows[i].protocol && r[j].pid == rows[i].pid,
{
    let key = |p: PortView| owner_key(p);
    assert(rows[i] == rows[i]);
    assert(crate::order::has_key_by(r, key(rows[i]), key));
    let j = choose|j: int| 0 <= j < r.len() && key(#[trigger] r[j]) == key(rows[i]);
    assert(owner_key(r[j]) == owner_key(rows[i]));
    assert(r[j].port == rows[i].port);
}

} // verus!
