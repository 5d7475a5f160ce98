//! What is read out of the listings of a host, said of their lines and columns.
use vstd::prelude::*;
use vstd::string::*;

use crate::discovery::event_log::{
    candidate, channel_name, classic, first_count, selected, trace_channel, ChannelView,
    MAX_PROBED_CANDIDATES,
};
use crate::discovery::packages::{
    brew_package, dpkg_record, greatest, last_field, lemma_find_blank, records, rpm_row,
    CellarEntry, PackageView,
};
use crate::discovery::ports::{
    after_heading, all_owners, linked_inode, listen_row, lsof_listener, lsof_row, namespace_of,
    netstat_row, owner_key, owner_place, port_key, process_owners, swept_port, sweeping, tcp_port,
    udp_port, OwnerView, PortView, ProcessFacts, SocketOwner, SocketRow,
};
use crate::discovery::processes::{command_line, ps_row, ps_rows, ProcessView};
use crate::discovery::systemd::{reported_row, unit_row, ServiceView};
use crate::discovery::windows_services::{
    field_value_of, finished, named_value, queried_services, read_lines,
};
use crate::laws::docker::{keeping_goes_item_by_item, keeping_one_item};
use crate::laws::text::{
    numbers_are_read_as_written, the_last_one_is_found, trimming_takes_white_space_off,
};
use crate::order::{lex_less, sorted_unique_by};
use crate::seqs::kept;
use crate::text::{
    after_last, ascii_lowered, decimal, is_white, joined, lemma_find_at, lines, occurs, parsed,
    stands_at, strings, trimmed, words,
};

verus! {

proof fn lemma_after_last(host: Seq<char>, c: char, digits: Seq<char>)
    requires
        forall|i: int| 0 <= i < digits.len() ==> #[trigger] digits[i] != c,
    ensures
        after_last(host + seq![c] + digits, c) == digits,
        after_last(digits, c) == digits,
{
    the_last_one_is_found(host, c, digits);
    assert((host + seq![c] + digits).skip(host.len() as int + 1) =~= digits);
    assert(digits.skip(0) =~= digits);
}

// ---------------------------------------------------------------------------
// Ports
// ---------------------------------------------------------------------------

/// The first row of a table is its heading, and all others are not.
pub proof fn headings_are_no_rows(heading: Seq<char>, rows: Seq<Seq<char>>)
    ensures
        after_heading(seq![heading] + rows) == rows,
        after_heading(Seq::<Seq<char>>::empty()) == Seq::<Seq<char>>::empty(),
{
    assert((seq![heading] + rows).skip(1) =~= rows);
}

/// A row of the kernel's table counts just if its fourth column says that the socket
/// listens, and then gives the port behind the last colon of the second, in hexadecimal
/// digits, and the inode of the tenth, in decimal ones.
pub proof fn kernel_rows_give_port_and_inode(
    line: Seq<char>,
    host: Seq<char>,
    digits: Seq<char>,
    port: u16,
    inode: u64,
)
    requires
        words(line).len() >= 10,
        words(line)[1] == host + seq![':'] + digits,
        forall|i: int| 0 <= i < digits.len() ==> #[trigger] digits[i] != ':',
    ensures
        words(line)[3] != seq!['0', 'A'] ==> listen_row(line) is None,
        words(line)[3] == seq!['0', 'A'] && parsed(digits, 16, 65535) == Some(port as nat) && parsed(
            words(line)[9],
            10,
            0xffff_ffff_ffff_ffff,
        ) == Some(inode as nat) ==> listen_row(line) == Some((port, inode)),
        parsed(digits, 16, 65535) is None ==> listen_row(line) is None,
        parsed(words(line)[9], 10, 0xffff_ffff_ffff_ffff) is None ==> listen_row(line) is None,
{
    reveal_strlit("0A");
    assert("0A"@ =~= seq!['0', 'A']);
    lemma_after_last(host, ':', digits);
}

/// A row with fewer than ten columns says nothing.
pub proof fn short_kernel_rows_say_nothing(line: Seq<char>)
    requires
        words(line).len() < 10,
    ensures
        listen_row(line) is None,
{
}

/// The inode of a link is the number between the brackets behind its kind and a colon.
pub proof fn links_name_their_inode(kind: Seq<char>, n: u64, other: Seq<char>)
    ensures
        linked_inode(kind + seq![':', '['] + decimal(n as nat) + seq![']'], kind) == Some(n as nat),
        !(kind + seq![':', '[']).is_prefix_of(other) ==> linked_inode(other, kind) is None,
        other.len() > 0 && other.last() != ']' ==> linked_inode(other, kind) is None,
        kind + seq![':', '['] + decimal(n as nat) + seq![']'] == other ==> linked_inode(
            other.push(']'),
            kind,
        ) is None,
{
    reveal_strlit(":[");
    reveal_strlit("]");
    let open = seq![':', '['];
    let close = seq![']'];
    assert(":["@ =~= open && "]"@ =~= close);
    let d = decimal(n as nat);
    let link = kind + open + d + close;
    let prefix = kind + open;
    assert(prefix.is_prefix_of(link));
    let rest = link.skip(prefix.len() as int);
    assert(rest =~= d + close);
    assert(close.is_suffix_of(rest));
    assert(rest.take(rest.len() - 1) =~= d);
    numbers_are_read_as_written(n as nat, u64::MAX as nat);
    if other.len() > 0 && other.last() != ']' && prefix.is_prefix_of(other) {
        let r = other.skip(prefix.len() as int);
        if close.is_suffix_of(r) {
            assert(r.last() == close[0]);
            assert(r.last() == other.last());
        }
    }
    if other == link {
        let more = other.push(']');
        let r = more.skip(prefix.len() as int);
        assert(r =~= d + close + close);
        assert(r.take(r.len() - 1) =~= d + close);
        crate::laws::text::what_is_no_number_is_not_read(
            d + close,
            u64::MAX as nat,
            d.len() as int,
        );
        crate::laws::text::decimal_digits_write_the_number(n as nat);
    }
}

proof fn lemma_kept_holds<A, B>(s: Seq<A>, f: spec_fn(A) -> Option<B>, i: int)
    requires
        0 <= i < s.len(),
        f(s[i]) is Some,
    ensures
        kept(s, f).contains(f(s[i])->0),
    decreases s.len(),
{
    if i == s.len() - 1 {
        let k = kept(s, f);
        assert(k[k.len() - 1] == f(s[i])->0);
    } else {
        assert(s.drop_last()[i] == s[i]);
        lemma_kept_holds(s.drop_last(), f, i);
        let b = kept(s.drop_last(), f);
        let j = choose|j: int| 0 <= j < b.len() && b[j] == f(s[i])->0;
        assert(kept(s, f)[j] == b[j]);
    }
}

/// A process owns every socket that it holds open, under its own id and its name without
/// the white space around it.
pub proof fn open_sockets_have_owners(processes: Seq<ProcessFacts>, i: int, k: int, n: u64)
    requires
        0 <= i < processes.len(),
        0 <= k < processes[i].open_files@.len(),
        processes[i].open_files@[k]@ == seq!['s', 'o', 'c', 'k', 'e', 't', ':', '['] + decimal(
            n as nat,
        ) + seq![']'],
    ensures
        all_owners(processes).contains(
            OwnerView { inode: n, pid: processes[i].pid, process: trimmed(processes[i].comm@) },
        ),
    decreases processes.len(),
{
    let p = processes[i];
    let o = OwnerView { inode: n, pid: p.pid, process: trimmed(p.comm@) };
    let all = all_owners(processes);
    let last = process_owners(processes.last());
    let before = all_owners(processes.drop_last());
    if i == processes.len() - 1 {
        reveal_strlit("socket");
        assert("socket"@ + seq![':', '['] =~= seq!['s', 'o', 'c', 'k', 'e', 't', ':', '[']);
        links_name_their_inode("socket"@, n, p.open_files@[k]@);
        let links = strings(p.open_files@);
        assert(links[k] == p.open_files@[k]@);
        let f = |link: Seq<char>| crate::discovery::ports::link_owner(p, link);
        assert(f(links[k]) == Some(o));
        lemma_kept_holds(links, f, k);
        let j = choose|j: int| 0 <= j < last.len() && last[j] == o;
        assert(all[before.len() + j] == o);
    } else {
        assert(processes.drop_last()[i] == p);
        open_sockets_have_owners(processes.drop_last(), i, k, n);
        let j = choose|j: int| 0 <= j < before.len() && before[j] == o;
        assert(all[j] == o);
    }
}

/// The last of a socket's owners counts.
pub proof fn the_last_owner_counts(
    before: Seq<SocketOwner>,
    owner: SocketOwner,
    after: Seq<SocketOwner>,
    inode: u64,
)
    requires
        owner.inode == inode,
        forall|i: int| 0 <= i < after.len() ==> (#[trigger] after[i]).inode != inode,
    ensures
        owner_place(before + seq![owner] + after, inode) == before.len(),
        owner_place(after, inode) == -1,
    decreases after.len(),
{
    let all = before + seq![owner] + after;
    if after.len() > 0 {
        assert(all.last() == after.last());
        assert(all.drop_last() =~= before + seq![owner] + after.drop_last());
        assert(after[after.len() - 1].inode != inode);
        assert forall|i: int| 0 <= i < after.drop_last().len() implies (
        #[trigger] after.drop_last()[i]).inode != inode by {
            assert(after[i].inode != inode);
        }
        the_last_owner_counts(before, owner, after.drop_last(), inode);
    } else {
        assert(all.last() == owner);
        assert(after =~= Seq::<SocketOwner>::empty());
    }
}

/// A TCP row of the host counts if it listens, a UDP row if it has a port, and a row of
/// another namespace if its owner is known. Each is the port that it names, with its
/// owner as far as that is known.
pub proof fn socket_rows_become_ports(
    before: Seq<SocketOwner>,
    owner: SocketOwner,
    after: Seq<SocketOwner>,
    strangers: Seq<SocketOwner>,
    row: SocketRow,
)
    requires
        owner.inode == row.inode,
        forall|i: int| 0 <= i < after.len() ==> (#[trigger] after[i]).inode != row.inode,
        forall|i: int| 0 <= i < strangers.len() ==> (#[trigger] strangers[i]).inode != row.inode,
    ensures
        ({
            let owners = before + seq![owner] + after;
            let tcp = PortView {
                port: row.port,
                protocol: "tcp"@,
                process: owner.process@,
                pid: owner.pid,
            };
            let unowned = PortView {
                port: row.port,
                protocol: "tcp"@,
                process: Seq::empty(),
                pid: 0,
            };
            &&& row.listening ==> tcp_port(owners, row) == Some(tcp)
            &&& row.listening ==> tcp_port(strangers, row) == Some(unowned)
            &&& !row.listening ==> tcp_port(owners, row) is None
            &&& row.port != 0 ==> udp_port(owners, row) == Some(PortView { protocol: "udp"@, ..tcp })
            &&& row.port != 0 ==> udp_port(strangers, row) == Some(
                PortView { protocol: "udp"@, ..unowned },
            )
            &&& row.port == 0 ==> udp_port(owners, row) is None
            &&& swept_port(owners, (row.port, row.inode)) == Some(tcp)
            &&& swept_port(strangers, (row.port, row.inode)) is None
        }),
{
    the_last_owner_counts(before, owner, after, row.inode);
    the_last_owner_counts(before, owner, strangers, row.inode);
    let owners = before + seq![owner] + after;
    assert(owners[before.len() as int] == owner);
}

/// A process is in the network namespace that its link names.
pub proof fn processes_name_their_namespace(p: ProcessFacts, n: u64)
    ensures
        p.namespace is Some && p.namespace->0@ == seq!['n', 'e', 't', ':', '['] + decimal(n as nat)
            + seq![']'] ==> namespace_of(p) == Some(n as nat),
        p.namespace is None ==> namespace_of(p) is None,
{
    reveal_strlit("net");
    assert("net"@ + seq![':', '['] =~= seq!['n', 'e', 't', ':', '[']);
    links_name_their_inode("net"@, n, seq![]);
}

/// Of each other namespace the first process is swept through; the own namespace is not
/// swept, nor is a process whose namespace is unknown.
pub proof fn other_namespaces_are_swept(processes: Seq<ProcessFacts>, own: Option<nat>, i: int)
    ensures
        0 <= i < processes.len() && namespace_of(processes[i]) is Some && namespace_of(processes[i])
            != own && (forall|j: int|
            0 <= j < i ==> namespace_of(#[trigger] processes[j]) != namespace_of(processes[i]))
            ==> sweeping(processes, own).contains(processes[i].pid),
        0 <= i < sweeping(processes, own).len() ==> exists|j: int|
            0 <= j < processes.len() && (#[trigger] processes[j]).pid == sweeping(processes, own)[i]
                && namespace_of(processes[j]) is Some && namespace_of(processes[j]) != own && (
            forall|k: int|
                0 <= k < j ==> namespace_of(#[trigger] processes[k]) != namespace_of(processes[j])),
    decreases processes.len(),
{
    if processes.len() > 0 {
        let rest = processes.drop_last();
        let n = processes.len() - 1;
        let s = sweeping(processes, own);
        let b = sweeping(rest, own);
        other_namespaces_are_swept(rest, own, i);
        if 0 <= i < n {
            assert(rest[i] == processes[i]);
            if forall|j: int|
                0 <= j < i ==> namespace_of(#[trigger] processes[j]) != namespace_of(
                    processes[i],
                ) {
                assert forall|j: int| 0 <= j < i implies namespace_of(#[trigger] rest[j])
                    != namespace_of(rest[i]) by {
                    assert(processes[j] == rest[j]);
                }
                if namespace_of(processes[i]) is Some && namespace_of(processes[i]) != own {
                    let k = choose|k: int| 0 <= k < b.len() && b[k] == processes[i].pid;
                    assert(s[k] == b[k]);
                }
            }
        }
        if i == n && namespace_of(processes[n]) is Some && namespace_of(processes[n]) != own {
            if forall|j: int|
                0 <= j < n ==> namespace_of(#[trigger] processes[j]) != namespace_of(
                    processes[n],
                ) {
                let v = namespace_of(processes[n])->0;
                assert(!crate::discovery::ports::some_in(rest, v)) by {
                    if crate::discovery::ports::some_in(rest, v) {
                        let j = choose|j: int|
                            0 <= j < rest.len() && namespace_of(#[trigger] rest[j]) == Some(v);
                        assert(processes[j] == rest[j]);
                    }
                }
                assert(s == b.push(processes[n].pid));
                assert(s[b.len() as int] == processes[n].pid);
            }
        }
        if 0 <= i < b.len() {
            let j = choose|j: int|
                0 <= j < rest.len() && (#[trigger] rest[j]).pid == b[i] && namespace_of(rest[j])
                    is Some && namespace_of(rest[j]) != own && (forall|k: int|
                    0 <= k < j ==> namespace_of(#[trigger] rest[k]) != namespace_of(rest[j]));
            assert(processes[j] == rest[j]);
            assert forall|k: int| 0 <= k < j implies namespace_of(#[trigger] processes[k])
                != namespace_of(processes[j]) by {
                assert(processes[k] == rest[k]);
            }
            assert(s[i] == b[i]);
        } else if 0 <= i < s.len() {
            assert(s[i] == processes[n].pid);
            let v = namespace_of(processes[n])->0;
            assert forall|k: int| 0 <= k < n implies namespace_of(#[trigger] processes[k])
                != namespace_of(processes[n]) by {
                assert(processes[k] == rest[k]);
                assert(!crate::discovery::ports::some_in(rest, v));
            }
            assert(processes[n].pid == s[i]);
        }
    }
}

/// A line of lsof gives the command of its first column, the id of the second, the
/// protocol of the eighth in small letters, and the port behind the last colon of the
/// ninth.
pub proof fn lsof_lines_are_read(
    line: Seq<char>,
    host: Seq<char>,
    digits: Seq<char>,
    port: u16,
    pid: u32,
)
    requires
        words(line).len() >= 9,
        words(line)[8] == host + seq![':'] + digits,
        forall|i: int| 0 <= i < digits.len() ==> #[trigger] digits[i] != ':',
        parsed(digits, 10, 65535) == Some(port as nat),
        parsed(words(line)[1], 10, 0xffff_ffff) == Some(pid as nat),
    ensures
        ({
            let protocol = ascii_lowered(words(line)[7]);
            lsof_row(line) == if protocol == seq!['t', 'c', 'p'] || protocol == seq!['u', 'd', 'p'] {
                Some(PortView { port, protocol, process: words(line)[0], pid })
            } else {
                None
            }
        }),
        occurs(
            line,
            seq!['(', 'L', 'I', 'S', 'T', 'E', 'N', ')'],
        ) || occurs(line, seq![' ', 'U', 'D', 'P', ' ']) ==> lsof_listener(line) == lsof_row(line),
        !occurs(line, seq!['(', 'L', 'I', 'S', 'T', 'E', 'N', ')']) && !occurs(
            line,
            seq![' ', 'U', 'D', 'P', ' '],
        ) ==> lsof_listener(line) is None,
{
    reveal_strlit("tcp");
    reveal_strlit("udp");
    reveal_strlit("(LISTEN)");
    reveal_strlit(" UDP ");
    assert("tcp"@ =~= seq!['t', 'c', 'p'] && "udp"@ =~= seq!['u', 'd', 'p']);
    assert("(LISTEN)"@ =~= seq!['(', 'L', 'I', 'S', 'T', 'E', 'N', ')']);
    assert(" UDP "@ =~= seq![' ', 'U', 'D', 'P', ' ']);
    lemma_after_last(host, ':', digits);
}

/// A line of lsof with fewer than nine columns, or whose second column or whose port is no
/// number, says nothing.
pub proof fn faulty_lsof_lines_say_nothing(line: Seq<char>)
    ensures
        words(line).len() < 9 ==> lsof_row(line) is None,
        parsed(words(line)[1], 10, 0xffff_ffff) is None ==> lsof_row(line) is None,
        parsed(after_last(words(line)[8], ':'), 10, 65535) is None ==> lsof_row(line) is None,
{
}

/// A line of netstat gives a TCP socket whose fourth column says that it listens, with the
/// owner of the fifth, or a UDP socket, with the owner of the fourth; the port stands
/// behind the last colon of the second.
pub proof fn netstat_lines_are_read(
    line: Seq<char>,
    host: Seq<char>,
    digits: Seq<char>,
    port: u16,
    pid: u32,
)
    requires
        words(line).len() >= 4,
        words(line)[1] == host + seq![':'] + digits,
        forall|i: int| 0 <= i < digits.len() ==> #[trigger] digits[i] != ':',
        parsed(digits, 10, 65535) == Some(port as nat),
    ensures
        ({
            let protocol = ascii_lowered(words(line)[0]);
            let read = PortView { port, protocol, process: Seq::empty(), pid };
            let listening = seq!['L', 'I', 'S', 'T', 'E', 'N', 'I', 'N', 'G'];
            &&& protocol == seq!['t', 'c', 'p'] && words(line).len() >= 5 && words(line)[3]
                == listening && parsed(words(line)[4], 10, 0xffff_ffff) == Some(pid as nat)
                ==> netstat_row(line) == Some(read)
            &&& protocol == seq!['t', 'c', 'p'] && words(line)[3] != listening ==> netstat_row(
                line,
            ) is None
            &&& protocol == seq!['u', 'd', 'p'] && parsed(words(line)[3], 10, 0xffff_ffff) == Some(
                pid as nat,
            ) ==> netstat_row(line) == Some(read)
            &&& protocol != seq!['t', 'c', 'p'] && protocol != seq!['u', 'd', 'p'] ==> netstat_row(
                line,
            ) is None
        }),
{
    reveal_strlit("tcp");
    reveal_strlit("udp");
    reveal_strlit("LISTENING");
    assert("tcp"@ =~= seq!['t', 'c', 'p'] && "udp"@ =~= seq!['u', 'd', 'p']);
    assert("LISTENING"@ =~= seq!['L', 'I', 'S', 'T', 'E', 'N', 'I', 'N', 'G']);
    assert(seq!['t', 'c', 'p'][0] != seq!['u', 'd', 'p'][0]);
    lemma_after_last(host, ':', digits);
}

/// Of the rows of one port and protocol the first stays, and only it; ports come in
/// ascending order.
pub proof fn ports_come_once(rows: Seq<PortView>, r: Seq<PortView>, i: int, j: int)
    requires
        sorted_unique_by(rows, r, |p: PortView| port_key(p)),
    ensures
        0 <= i < j < r.len() ==> r[i].port <= r[j].port && !(r[i].port == r[j].port && r[i].protocol
            == r[j].protocol),
        0 <= i < j < r.len() && r[i].port == r[j].port ==> lex_less(r[i].protocol, r[j].protocol),
        0 <= i < rows.len() ==> exists|k: int|
            0 <= k < r.len() && (#[trigger] r[k]).port == rows[i].port && r[k].protocol
                == rows[i].protocol,
        0 <= i < r.len() ==> exists|k: int|
            0 <= k < rows.len() && #[trigger] rows[k] == r[i] && (forall|m: int|
                0 <= m < k ==> !((#[trigger] rows[m]).port == r[i].port && rows[m].protocol
                    == r[i].protocol)),
{
    let key = |p: PortView| port_key(p);
    if 0 <= i < j < r.len() {
        assert(crate::order::key_less(key(r[i]), key(r[j])));
    }
    if 0 <= i < rows.len() {
        assert(crate::order::has_key_by(r, key(rows[i]), key));
        let k = choose|k: int| 0 <= k < r.len() && key(#[trigger] r[k]) == key(rows[i]);
        assert(r[k].port == rows[i].port);
    }
    if 0 <= i < r.len() {
        assert(crate::order::is_first_by(rows, r[i], key));
        let at = choose|at: int|
            #[trigger] crate::order::first_by(rows, at, key) && rows[at] == r[i];
        assert forall|m: int| 0 <= m < at implies !((#[trigger] rows[m]).port == r[i].port
            && rows[m].protocol == r[i].protocol) by {
            assert(key(rows[m]) != key(rows[at]));
        }
        assert(rows[at] == r[i]);
    }
}

/// Of the rows of one port, protocol and owner the first stays, and only it; ports come in
/// ascending order.
pub proof fn owned_ports_come_once(rows: Seq<PortView>, r: Seq<PortView>, i: int, j: int)
    requires
        sorted_unique_by(rows, r, |p: PortView| owner_key(p)),
    ensures
        0 <= i < j < r.len() ==> r[i].port <= r[j].port && !(r[i].port == r[j].port && r[i].protocol
            == r[j].protocol && r[i].pid == r[j].pid),
        0 <= i < j < r.len() && r[i].port == r[j].port && r[i].protocol == r[j].protocol
            ==> r[i].pid < r[j].pid,
        0 <= i < r.len() ==> exists|k: int|
            0 <= k < rows.len() && #[trigger] rows[k] == r[i] && (forall|m: int|
                0 <= m < k ==> !((#[trigger] rows[m]).port == r[i].port && rows[m].protocol
                    == r[i].protocol && rows[m].pid == r[i].pid)),
{
    let key = |p: PortView| owner_key(p);
    if 0 <= i < j < r.len() {
        assert(crate::order::key_less(key(r[i]), key(r[j])));
    }
    if 0 <= i < r.len() {
        assert(crate::order::is_first_by(rows, r[i], key));
        let at = choose|at: int|
            #[trigger] crate::order::first_by(rows, at, key) && rows[at] == r[i];
        assert forall|m: int| 0 <= m < at implies !((#[trigger] rows[m]).port == r[i].port
            && rows[m].protocol == r[i].protocol && rows[m].pid == r[i].pid) by {
            assert(key(rows[m]) != key(rows[at]));
        }
        assert(rows[at] == r[i]);
    }
}

/// Texts come in the order of the first characters in which they differ, and a text
/// before its extensions.
pub proof fn texts_are_ordered_by_their_characters(
    common: Seq<char>,
    a: char,
    b: char,
    s: Seq<char>,
    t: Seq<char>,
)
    ensures
        a != b ==> (lex_less(common + seq![a] + s, common + seq![b] + t) <==> (a as int) < (
        b as int)),
        lex_less(common, common + seq![b] + t),
        !lex_less(common + seq![b] + t, common),
        !lex_less(common, common),
    decreases common.len(),
{
    let x = common + seq![a] + s;
    let y = common + seq![b] + t;
    if common.len() > 0 {
        texts_are_ordered_by_their_characters(common.skip(1), a, b, s, t);
        assert(x.skip(1) =~= common.skip(1) + seq![a] + s);
        assert(y.skip(1) =~= common.skip(1) + seq![b] + t);
        assert(x[0] == common[0] && y[0] == common[0]);
    } else {
        assert(x[0] == a && y[0] == b);
    }
}

// ---------------------------------------------------------------------------
// Packages
// ---------------------------------------------------------------------------

/// Records end at the first blank line.
pub proof fn records_end_at_blank_lines(record: Seq<char>, rest: Seq<char>)
    requires
        forall|i: int| 0 <= i < record.len() - 1 ==> !(#[trigger] record[i] == '\n' && record[i + 1]
            == '\n'),
    ensures
        records(record) == seq![record],
        record.len() == 0 || record.last() != '\n' ==> records(record + seq!['\n', '\n'] + rest)
            == seq![record] + records(rest),
{
    reveal_strlit("\n\n");
    let pair = seq!['\n', '\n'];
    assert("\n\n"@ =~= pair);
    let all = record + pair + rest;
    let n = record.len() as int;
    assert forall|i: int| 0 <= i < n implies !#[trigger] stands_at(record, pair, i) by {
        if stands_at(record, pair, i) {
            let sub = record.subrange(i, i + 2);
            assert(sub[0] == record[i] && sub[1] == record[i + 1]);
        }
    }
    lemma_find_blank(record, n);
    if n == 0 || record.last() != '\n' {
        assert forall|i: int| 0 <= i < n implies !#[trigger] stands_at(all, pair, i) by {
            if stands_at(all, pair, i) {
                let sub = all.subrange(i, i + 2);
                assert(sub[0] == all[i] && sub[1] == all[i + 1]);
                assert(all[i] == record[i]);
                if i + 1 < n {
                    assert(all[i + 1] == record[i + 1]);
                }
            }
        }
        assert(all.subrange(n, n + 2) =~= pair);
        assert(stands_at(all, pair, n));
        lemma_find_blank(all, n);
        assert(all.take(n) =~= record);
        assert(all.skip(n + 2) =~= rest);
    }
}

proof fn lemma_field(rows: Seq<Seq<char>>, field: Seq<char>, at: int, value: Seq<char>)
    requires
        0 <= at < rows.len(),
        rows[at] == field + value,
        forall|i: int| at < i < rows.len() ==> !field.is_prefix_of(#[trigger] rows[i]),
    ensures
        last_field(rows, field) == Some(trimmed(value)),
    decreases rows.len(),
{
    if at == rows.len() - 1 {
        assert(field.is_prefix_of(rows[at]));
        assert(rows[at].skip(field.len() as int) =~= value);
    } else {
        assert(!field.is_prefix_of(rows[rows.len() - 1]));
        assert(rows.drop_last()[at] == rows[at]);
        assert forall|i: int| at < i < rows.drop_last().len() implies !field.is_prefix_of(
            #[trigger] rows.drop_last()[i],
        ) by {
            assert(rows[i] == rows.drop_last()[i]);
        }
        lemma_field(rows.drop_last(), field, at, value);
    }
}

proof fn lemma_no_field(rows: Seq<Seq<char>>, field: Seq<char>)
    requires
        forall|i: int| 0 <= i < rows.len() ==> !field.is_prefix_of(#[trigger] rows[i]),
    ensures
        last_field(rows, field) is None,
    decreases rows.len(),
{
    if rows.len() > 0 {
        assert(!field.is_prefix_of(rows[rows.len() - 1]));
        assert forall|i: int| 0 <= i < rows.drop_last().len() implies !field.is_prefix_of(
            #[trigger] rows.drop_last()[i],
        ) by {
            assert(rows[i] == rows.drop_last()[i]);
        }
        lemma_no_field(rows.drop_last(), field);
    }
}

/// A record of dpkg is the package and the version that its lines name, if its status says
/// that it is wanted or held, and installed. The last line of each field counts.
pub proof fn dpkg_records_are_read(
    record: Seq<char>,
    i: int,
    j: int,
    k: int,
    name: Seq<char>,
    version: Seq<char>,
    status: Seq<char>,
)
    requires
        0 <= i < lines(record).len(),
        0 <= j < lines(record).len(),
        0 <= k < lines(record).len(),
        lines(record)[i] == "Package: "@ + name,
        lines(record)[j] == "Version: "@ + version,
        lines(record)[k] == "Status: "@ + status,
        forall|m: int|
            i < m < lines(record).len() ==> !"Package: "@.is_prefix_of(#[trigger] lines(record)[m]),
        forall|m: int|
            j < m < lines(record).len() ==> !"Version: "@.is_prefix_of(#[trigger] lines(record)[m]),
        forall|m: int|
            k < m < lines(record).len() ==> !"Status: "@.is_prefix_of(#[trigger] lines(record)[m]),
    ensures
        ({
            let w = words(trimmed(status));
            let installed = w.len() > 0 && w.last() == seq![
                'i',
                'n',
                's',
                't',
                'a',
                'l',
                'l',
                'e',
                'd',
            ] && (w[0] == seq!['i', 'n', 's', 't', 'a', 'l', 'l'] || w[0] == seq![
                'h',
                'o',
                'l',
                'd',
            ]);
            dpkg_record(record) == if installed {
                Some(
                    PackageView {
                        name: trimmed(name),
                        version: trimmed(version),
                        manager: "apt"@,
                    },
                )
            } else {
                None
            }
        }),
{
    reveal_strlit("installed");
    reveal_strlit("install");
    reveal_strlit("hold");
    assert("installed"@ =~= seq!['i', 'n', 's', 't', 'a', 'l', 'l', 'e', 'd']);
    assert("install"@ =~= seq!['i', 'n', 's', 't', 'a', 'l', 'l']);
    assert("hold"@ =~= seq!['h', 'o', 'l', 'd']);
    lemma_field(lines(record), "Package: "@, i, name);
    lemma_field(lines(record), "Version: "@, j, version);
    lemma_field(lines(record), "Status: "@, k, status);
}

/// A record without a name, a version or a status describes no package.
pub proof fn faulty_dpkg_records_say_nothing(record: Seq<char>, missing: Seq<char>)
    requires
        missing == "Package: "@ || missing == "Version: "@ || missing == "Status: "@,
        forall|m: int|
            0 <= m < lines(record).len() ==> !missing.is_prefix_of(#[trigger] lines(record)[m]),
    ensures
        dpkg_record(record) is None,
{
    lemma_no_field(lines(record), missing);
}

/// A line of rpm is a name, a bar and a version.
pub proof fn rpm_lines_are_read(name: Seq<char>, version: Seq<char>)
    requires
        forall|i: int| 0 <= i < name.len() ==> #[trigger] name[i] != '|',
    ensures
        rpm_row(name + seq!['|'] + version) == if trimmed(name).len() > 0 {
            Some(PackageView { name: trimmed(name), version: trimmed(version), manager: "yum"@ })
        } else {
            None
        },
        rpm_row(name) is None,
{
    let line = name + seq!['|'] + version;
    let n = name.len() as int;
    assert forall|i: int| 0 <= i < n implies line[i] != '|' by {
        assert(line[i] == name[i]);
    }
    assert(line[n] == '|');
    lemma_find_at(line, '|', n);
    lemma_find_at(name, '|', n);
    assert(line.take(n) =~= name);
    assert(line.skip(n + 1) =~= version);
}

/// The greatest of texts is one of them, and none comes behind it.
pub proof fn the_greatest_version_counts(texts: Seq<Seq<char>>, i: int)
    requires
        0 <= i < texts.len(),
    ensures
        texts.contains(greatest(texts)),
        !lex_less(greatest(texts), texts[i]),
    decreases texts.len(),
{
    let n = texts.len() - 1;
    let before = greatest(texts.drop_last());
    crate::order::lemma_lex_irreflexive(texts[n]);
    if n == 0 {
        assert(texts.drop_last().len() == 0);
        assert(texts.last() == texts[0]);
        assert(!lex_less(texts.last(), before));
        assert(greatest(texts) == texts[0]);
    } else {
        let k = if i < n {
            i
        } else {
            0
        };
        the_greatest_version_counts(texts.drop_last(), k);
        assert(texts.drop_last()[k] == texts[k]);
        let m = choose|m: int|
            0 <= m < texts.drop_last().len() && texts.drop_last()[m] == before;
        assert(texts[m] == before);
        assert(texts.last() == texts[n]);
        if lex_less(texts.last(), before) {
            assert(greatest(texts) == before);
            if i == n && lex_less(before, texts[n]) {
                crate::order::lemma_lex_transitive(before, texts[n], before);
                crate::order::lemma_lex_irreflexive(before);
            }
        } else {
            assert(greatest(texts) == texts[n]);
            if i < n && lex_less(texts[n], texts[i]) {
                crate::order::lemma_lex_total(before, texts[n]);
                if before == texts[n] {
                } else {
                    crate::order::lemma_lex_transitive(before, texts[n], texts[i]);
                }
            }
        }
    }
}

/// A directory of the Cellar is a package of its name, in its last version; one that could
/// not be read is none.
pub proof fn cellar_directories_are_packages(entry: CellarEntry, i: int)
    ensures
        entry.versions is None ==> brew_package(entry) is None,
        entry.versions is Some ==> brew_package(entry) is Some && brew_package(entry)->0.name
            == entry.name@ && brew_package(entry)->0.manager == "brew"@,
        entry.versions is Some && entry.versions->0@.len() == 0 ==> brew_package(entry)->0.version
            == Seq::<char>::empty(),
        entry.versions is Some && 0 <= i < entry.versions->0@.len() ==> {
            let version = brew_package(entry)->0.version;
            &&& !lex_less(version, entry.versions->0@[i]@)
            &&& strings(entry.versions->0@).contains(version)
        },
{
    if entry.versions is Some && 0 <= i < entry.versions->0@.len() {
        let texts = strings(entry.versions->0@);
        assert(texts[i] == entry.versions->0@[i]@);
        the_greatest_version_counts(texts, i);
    }
}

// ---------------------------------------------------------------------------
// Processes
// ---------------------------------------------------------------------------

proof fn lemma_joined_len(parts: Seq<Seq<char>>, sep: Seq<char>)
    requires
        parts.len() > 0,
    ensures
        joined(parts, sep).len() >= parts[0].len(),
    decreases parts.len(),
{
    if parts.len() > 1 {
        assert(parts.drop_last()[0] == parts[0]);
        lemma_joined_len(parts.drop_last(), sep);
    }
}

/// A line of ps gives the user of its first column, the id of the second, the shares of
/// the third and fourth, and from the eleventh on the command, with a space between its
/// words.
pub proof fn ps_lines_are_read(
    line: Seq<char>,
    user: Seq<char>,
    id: Seq<char>,
    cpu: Seq<char>,
    mem: Seq<char>,
    others: Seq<Seq<char>>,
    command: Seq<Seq<char>>,
    pid: u32,
)
    requires
        words(trimmed(line)) == seq![user, id, cpu, mem] + others + command,
        others.len() == 6,
        command.len() > 0,
        command[0].len() > 0,
    ensures
        parsed(id, 10, 0xffff_ffff) == Some(pid as nat) ==> ps_row(line) == Some(
            ProcessView { pid, user, cpu, mem, command: joined(command, seq![' ']) },
        ),
        parsed(id, 10, 0xffff_ffff) is None ==> ps_row(line) is None,
{
    reveal_strlit(" ");
    assert(" "@ =~= seq![' ']);
    let cols = words(trimmed(line));
    assert(cols.len() == 10 + command.len());
    assert(cols[0] == user && cols[1] == id && cols[2] == cpu && cols[3] == mem);
    assert(cols.skip(10) =~= command);
    lemma_joined_len(command, " "@);
}

/// A line with fewer than eleven columns describes no process.
pub proof fn short_ps_lines_say_nothing(line: Seq<char>)
    requires
        words(trimmed(line)).len() < 11,
    ensures
        ps_row(line) is None,
{
}

/// The lines of ps are read one by one, but for the first, which is a heading.
pub proof fn ps_has_a_heading(
    output: Seq<char>,
    heading: Seq<char>,
    before: Seq<Seq<char>>,
    line: Seq<char>,
)
    requires
        lines(output) == seq![heading] + before + seq![line],
    ensures
        ps_rows(output) == kept(before, |l: Seq<char>| ps_row(l)) + match ps_row(line) {
            Some(p) => seq![p],
            None => Seq::empty(),
        },
{
    let f = |l: Seq<char>| ps_row(l);
    let all = lines(output);
    assert(all.skip(1) =~= before + seq![line]);
    keeping_goes_item_by_item(before, seq![line], f);
    keeping_one_item(line, f);
    assert(kept(before, f) + Seq::<ProcessView>::empty() =~= kept(before, f));
}

/// A command is its arguments with a space between them, or the kernel's name in brackets.
pub proof fn commands_are_arguments(args: Seq<Seq<char>>, comm: Seq<char>)
    ensures
        args.len() > 0 ==> command_line(args, comm) == joined(args, seq![' ']),
        args.len() == 0 ==> command_line(args, comm) == seq!['['] + comm + seq![']'],
{
    reveal_strlit(" ");
    reveal_strlit("[");
    reveal_strlit("]");
    assert(" "@ =~= seq![' '] && "["@ =~= seq!['['] && "]"@ =~= seq![']']);
}

// ---------------------------------------------------------------------------
// Services
// ---------------------------------------------------------------------------

/// A line of systemctl gives a unit, its three states, and a description with a space
/// between its words; the service is named by the unit without its suffix. A unit that is
/// inactive or dead is not reported.
pub proof fn systemctl_lines_are_read(
    line: Seq<char>,
    name: Seq<char>,
    load: Seq<char>,
    active: Seq<char>,
    sub: Seq<char>,
    description: Seq<Seq<char>>,
)
    requires
        words(trimmed(line)) == seq![name + ".service"@, load, active, sub] + description,
    ensures
        ({
            let s = ServiceView {
                name: name + ".service"@,
                load_state: load,
                active_state: active,
                sub_state: sub,
                description: joined(description, seq![' ']),
                service_name: name,
                main_pid: 0,
            };
            &&& unit_row(line) == Some(s)
            &&& active == seq!['i', 'n', 'a', 'c', 't', 'i', 'v', 'e'] || active == seq![
                'd',
                'e',
                'a',
                'd',
            ] ==> reported_row(line) is None
            &&& active != seq!['i', 'n', 'a', 'c', 't', 'i', 'v', 'e'] && active != seq![
                'd',
                'e',
                'a',
                'd',
            ] ==> reported_row(line) == Some(s)
        }),
{
    reveal_strlit(" ");
    reveal_strlit("inactive");
    reveal_strlit("dead");
    assert(" "@ =~= seq![' ']);
    assert("inactive"@ =~= seq!['i', 'n', 'a', 'c', 't', 'i', 'v', 'e']);
    assert("dead"@ =~= seq!['d', 'e', 'a', 'd']);
    let cols = words(trimmed(line));
    let unit = name + ".service"@;
    assert(cols[0] == unit && cols[1] == load && cols[2] == active && cols[3] == sub);
    assert(cols.skip(4) =~= description);
    assert(".service"@.is_suffix_of(unit));
    assert(unit.take(unit.len() - ".service"@.len()) =~= name);
}

/// A line whose first word does not end in the suffix of services is none.
pub proof fn other_units_are_passed_over(line: Seq<char>)
    requires
        words(trimmed(line)).len() == 0 || !".service"@.is_suffix_of(words(trimmed(line))[0]),
    ensures
        unit_row(line) is None,
        reported_row(line) is None,
{
}

/// A field's value is what stands behind the first colon, without the white space around
/// it, if the field's name stands before it.
pub proof fn fields_have_a_name_and_a_value(before: Seq<char>, value: Seq<char>, field: Seq<char>)
    requires
        forall|i: int| 0 <= i < before.len() ==> #[trigger] before[i] != ':',
    ensures
        field_value_of(before + seq![':'] + value, field) == if trimmed(before) == field {
            Some(trimmed(value))
        } else {
            None
        },
        field_value_of(before, field) is None,
{
    let line = before + seq![':'] + value;
    let n = before.len() as int;
    assert forall|i: int| 0 <= i < n implies line[i] != ':' by {
        assert(line[i] == before[i]);
    }
    assert(line[n] == ':');
    lemma_find_at(line, ':', n);
    lemma_find_at(before, ':', n);
    assert(line.take(n) =~= before);
    assert(line.skip(n + 1) =~= value);
}

/// The name in a value is all of its words but the first.
pub proof fn codes_have_names(value: Seq<char>, code: Seq<char>, name: Seq<Seq<char>>)
    ensures
        words(value) == seq![code] + name ==> named_value(value) == joined(name, seq![' ']),
        words(value).len() == 0 ==> named_value(value) == Seq::<char>::empty(),
{
    reveal_strlit(" ");
    assert(" "@ =~= seq![' ']);
    assert((seq![code] + name).skip(1) =~= name);
}

/// A service that was listed with all of its fields is reported with them: its name, what
/// it is called, its type and state in small letters, and its process.
pub proof fn listed_services_are_reported(
    output: Seq<char>,
    rows: Seq<Seq<char>>,
    name: Seq<char>,
    called: Seq<char>,
    kind: Seq<char>,
    state: Seq<char>,
    id: Seq<char>,
    pid: u32,
)
    requires
        lines(output) == rows,
        rows.len() == 5,
        trimmed(rows[0]) == "SERVICE_NAME:"@ + seq![' '] + name,
        trimmed(rows[1]) == "DISPLAY_NAME:"@ + called,
        trimmed(rows[2]) == seq!['T', 'Y', 'P', 'E', ':'] + kind,
        trimmed(rows[3]) == seq!['S', 'T', 'A', 'T', 'E', ':'] + state,
        trimmed(rows[4]) == seq!['P', 'I', 'D', ':'] + id,
        name.len() > 0,
        !is_white(name[0]),
        !is_white(name.last()),
        parsed(trimmed(id), 10, 0xffff_ffff) == Some(pid as nat),
    ensures
        queried_services(output).len() == 1,
        ({
            let s = queried_services(output)[0];
            let kinds = ascii_lowered(named_value(trimmed(kind)));
            let states = ascii_lowered(named_value(trimmed(state)));
            &&& s.name == name
            &&& s.service_name == name
            &&& s.load_state == "installed"@
            &&& s.main_pid == pid
            &&& trimmed(called).len() > 0 ==> s.description == trimmed(called)
            &&& trimmed(called).len() == 0 ==> s.description == name
            &&& kinds.len() > 0 ==> s.sub_state == kinds
            &&& states.len() > 0 ==> s.active_state == states
            &&& states.len() == 0 ==> s.active_state == "unknown"@
        }),
{
    reveal_strlit("SERVICE_NAME:");
    reveal_strlit("DISPLAY_NAME:");
    reveal_strlit("TYPE");
    reveal_strlit("STATE");
    reveal_strlit("PID");
    let t = seq!['T', 'Y', 'P', 'E'];
    let st = seq!['S', 'T', 'A', 'T', 'E'];
    let p = seq!['P', 'I', 'D'];
    assert("TYPE"@ =~= t && "STATE"@ =~= st && "PID"@ =~= p);
    let none = Seq::<char>::empty();
    trimming_takes_white_space_off(none, t, none);
    trimming_takes_white_space_off(none, st, none);
    trimming_takes_white_space_off(none, p, none);
    trimming_takes_white_space_off(none, name, none);
    trimming_takes_white_space_off(seq![' '], name, none);
    assert(none + t + none =~= t && none + st + none =~= st && none + p + none =~= p);
    assert(none + name + none =~= name && seq![' '] + name + none =~= seq![' '] + name);
    assert(t.len() == 4 && st.len() == 5 && p.len() == 3);
    assert(seq!['T', 'Y', 'P', 'E', ':'] + kind =~= t + seq![':'] + kind);
    assert(seq!['S', 'T', 'A', 'T', 'E', ':'] + state =~= st + seq![':'] + state);
    assert(seq!['P', 'I', 'D', ':'] + id =~= p + seq![':'] + id);
    fields_have_a_name_and_a_value(t, kind, t);
    fields_have_a_name_and_a_value(t, kind, st);
    fields_have_a_name_and_a_value(t, kind, p);
    fields_have_a_name_and_a_value(st, state, t);
    fields_have_a_name_and_a_value(st, state, st);
    fields_have_a_name_and_a_value(p, id, t);
    fields_have_a_name_and_a_value(p, id, st);
    fields_have_a_name_and_a_value(p, id, p);
    let sn = "SERVICE_NAME:"@;
    let dn = "DISPLAY_NAME:"@;
    assert(sn[0] == 'S' && sn[1] == 'E' && dn[0] == 'D' && sn.len() == 13 && dn.len() == 13);
    let l0 = trimmed(rows[0]);
    let l1 = trimmed(rows[1]);
    let l2 = trimmed(rows[2]);
    let l3 = trimmed(rows[3]);
    let l4 = trimmed(rows[4]);
    assert(sn.is_prefix_of(l0));
    assert(l0.skip(13) =~= seq![' '] + name);
    assert(l1[0] == 'D');
    assert(!sn.is_prefix_of(l1)) by {
        if sn.is_prefix_of(l1) {
            assert(l1[0] == sn[0]);
        }
    }
    assert(dn.is_prefix_of(l1));
    assert(l1.skip(13) =~= called);
    assert(l2[0] == 'T' && l3[0] == 'S' && l3[1] == 'T' && l4[0] == 'P');
    assert(!sn.is_prefix_of(l2) && !dn.is_prefix_of(l2)) by {
        if sn.is_prefix_of(l2) {
            assert(l2[0] == sn[0]);
        }
        if dn.is_prefix_of(l2) {
            assert(l2[0] == dn[0]);
        }
    }
    assert(!sn.is_prefix_of(l3) && !dn.is_prefix_of(l3)) by {
        if sn.is_prefix_of(l3) {
            assert(l3[1] == sn[1]);
        }
        if dn.is_prefix_of(l3) {
            assert(l3[0] == dn[0]);
        }
    }
    assert(!sn.is_prefix_of(l4) && !dn.is_prefix_of(l4)) by {
        if sn.is_prefix_of(l4) {
            assert(l4[0] == sn[0]);
        }
        if dn.is_prefix_of(l4) {
            assert(l4[0] == dn[0]);
        }
    }
    reveal_with_fuel(read_lines, 6);
    let r4 = rows.drop_last();
    let r3 = r4.drop_last();
    let r2 = r3.drop_last();
    let r1 = r2.drop_last();
    assert(r1.drop_last().len() == 0);
    assert(r1.last() == rows[0] && r2.last() == rows[1] && r3.last() == rows[2] && r4.last()
        == rows[3] && rows.last() == rows[4]);
    let a = read_lines(r1);
    assert(a.done.len() == 0 && a.current.name == Some(name));
    let b = read_lines(r2);
    assert(b.current.display_name == Some(trimmed(called)));
    let c = read_lines(r3);
    assert(c.current.service_type == Some(ascii_lowered(named_value(trimmed(kind)))));
    let d = read_lines(r4);
    assert(d.current.state == Some(ascii_lowered(named_value(trimmed(state)))));
    let e = read_lines(rows);
    assert(e.current.pid == pid);
}

/// What was listed before the name of a further service is complete with it: the services
/// of a listing are those of its parts.
pub proof fn services_are_listed_one_after_another(rows: Seq<Seq<char>>, row: Seq<char>)
    requires
        "SERVICE_NAME:"@.is_prefix_of(trimmed(row)),
    ensures
        ({
            let before = read_lines(rows);
            let after = read_lines(rows.push(row));
            &&& finished(before.current) is Some ==> after.done == before.done.push(
                finished(before.current)->0,
            )
            &&& finished(before.current) is None ==> after.done == before.done
            &&& after.current.display_name is None
            &&& after.current.service_type is None
            &&& after.current.state is None
            &&& after.current.pid == 0
        }),
{
    assert(rows.push(row).drop_last() =~= rows);
    assert(rows.push(row).last() == row);
}

// ---------------------------------------------------------------------------
// Channels
// ---------------------------------------------------------------------------

/// Trace channels are those that end in `/Debug` or `/Analytic`, and no others.
pub proof fn trace_channels_are_known(name: Seq<char>)
    ensures
        trace_channel(name + seq!['/', 'D', 'e', 'b', 'u', 'g']),
        trace_channel(name + seq!['/', 'A', 'n', 'a', 'l', 'y', 't', 'i', 'c']),
        name.len() > 0 && name.last() != 'g' && name.last() != 'c' ==> !trace_channel(name),
{
    reveal_strlit("/Debug");
    reveal_strlit("/Analytic");
    let d = seq!['/', 'D', 'e', 'b', 'u', 'g'];
    let a = seq!['/', 'A', 'n', 'a', 'l', 'y', 't', 'i', 'c'];
    assert("/Debug"@ =~= d && "/Analytic"@ =~= a);
    assert(d.is_suffix_of(name + d));
    assert(a.is_suffix_of(name + a));
    if name.len() > 0 {
        if d.is_suffix_of(name) {
            assert(name.last() == d[5]);
        }
        if a.is_suffix_of(name) {
            assert(name.last() == a[8]);
        }
    }
}

/// The five classic channels are known by their names, whatever the case of the letters.
pub proof fn classic_channels_are_known(channel: Seq<char>)
    ensures
        classic(channel) <==> ascii_lowered(channel) == seq![
            'a',
            'p',
            'p',
            'l',
            'i',
            'c',
            'a',
            't',
            'i',
            'o',
            'n',
        ] || ascii_lowered(channel) == seq!['s', 'y', 's', 't', 'e', 'm'] || ascii_lowered(channel)
            == seq!['s', 'e', 'c', 'u', 'r', 'i', 't', 'y'] || ascii_lowered(channel) == seq![
            's',
            'e',
            't',
            'u',
            'p',
        ] || ascii_lowered(channel) == seq![
            'f',
            'o',
            'r',
            'w',
            'a',
            'r',
            'd',
            'e',
            'd',
            'e',
            'v',
            'e',
            'n',
            't',
            's',
        ],
{
    reveal_strlit("Application");
    reveal_strlit("System");
    reveal_strlit("Security");
    reveal_strlit("Setup");
    reveal_strlit("ForwardedEvents");
    assert(ascii_lowered("Application"@) =~= seq![
        'a',
        'p',
        'p',
        'l',
        'i',
        'c',
        'a',
        't',
        'i',
        'o',
        'n',
    ]);
    assert(ascii_lowered("System"@) =~= seq!['s', 'y', 's', 't', 'e', 'm']);
    assert(ascii_lowered("Security"@) =~= seq!['s', 'e', 'c', 'u', 'r', 'i', 't', 'y']);
    assert(ascii_lowered("Setup"@) =~= seq!['s', 'e', 't', 'u', 'p']);
    assert(ascii_lowered("ForwardedEvents"@) =~= seq![
        'f',
        'o',
        'r',
        'w',
        'a',
        'r',
        'd',
        'e',
        'd',
        'e',
        'v',
        'e',
        'n',
        't',
        's',
    ]);
}

/// A line names a channel if it is not blank.
pub proof fn lines_name_channels(line: Seq<char>)
    ensures
        trimmed(line).len() > 0 ==> channel_name(line) == Some(trimmed(line)),
        trimmed(line).len() == 0 ==> channel_name(line) is None,
{
}

/// The first count that is a number counts.
pub proof fn the_first_count_counts(
    before: Seq<Seq<char>>,
    line: Seq<char>,
    value: Seq<char>,
    n: nat,
    after: Seq<Seq<char>>,
)
    requires
        forall|i: int|
            0 <= i < before.len() ==> !"numberOfLogRecords:"@.is_prefix_of(
                trimmed(#[trigger] before[i]),
            ),
        trimmed(line) == "numberOfLogRecords:"@ + value,
    ensures
        parsed(trimmed(value), 10, 0xffff_ffff_ffff_ffff) == Some(n) ==> first_count(
            before + seq![line] + after,
        ) == Some(n),
        parsed(trimmed(value), 10, 0xffff_ffff_ffff_ffff) is None ==> first_count(
            before + seq![line] + after,
        ) == first_count(after),
        first_count(before) is None,
    decreases before.len(),
{
    let all = before + seq![line] + after;
    let field = "numberOfLogRecords:"@;
    if before.len() > 0 {
        assert(all[0] == before[0]);
        assert(!field.is_prefix_of(trimmed(before[0])));
        assert(all.skip(1) =~= before.skip(1) + seq![line] + after);
        assert forall|i: int| 0 <= i < before.skip(1).len() implies !field.is_prefix_of(
            trimmed(#[trigger] before.skip(1)[i]),
        ) by {
            assert(before.skip(1)[i] == before[i + 1]);
        }
        the_first_count_counts(before.skip(1), line, value, n, after);
    } else {
        assert(all[0] == line);
        assert(all.skip(1) =~= after);
        assert(field.is_prefix_of(trimmed(line)));
        assert(trimmed(line).skip(field.len() as int) =~= value);
    }
}

/// Trace channels are never probed; of the others the classics form one lot and the rest
/// another, of which at most four hundred are probed.
pub proof fn probes_leave_trace_channels_out(channel: Seq<char>)
    ensures
        trace_channel(channel) ==> candidate(channel, true) is None && candidate(channel, false)
            is None,
        !trace_channel(channel) && classic(channel) ==> candidate(channel, true) == Some(channel)
            && candidate(channel, false) is None,
        !trace_channel(channel) && !classic(channel) ==> candidate(channel, false) == Some(channel)
            && candidate(channel, true) is None,
        MAX_PROBED_CANDIDATES == 400,
{
}

/// A classic channel is always in the census, another only with records; a channel whose
/// probe gave no count has none.
pub proof fn channels_with_records_are_reported(
    counts: Map<Seq<char>, u64>,
    channel: Seq<char>,
)
    ensures
        counts.contains_key(channel) && counts[channel] > 0 ==> selected(counts, channel) == Some(
            ChannelView { channel, record_count: counts[channel] },
        ),
        !counts.contains_key(channel) && classic(channel) ==> selected(counts, channel) == Some(
            ChannelView { channel, record_count: 0 },
        ),
        counts.contains_key(channel) && classic(channel) ==> selected(counts, channel) == Some(
            ChannelView { channel, record_count: counts[channel] },
        ),
        !classic(channel) && (!counts.contains_key(channel) || counts[channel] == 0) ==> selected(
            counts,
            channel,
        ) is None,
{
}

} // verus!
