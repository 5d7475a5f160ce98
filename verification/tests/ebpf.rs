use edgepacer::ebpf::capture::{
    connect_event, first_segment, inbound, inbound_count, inbound_ex, l7_chunk, log_chunk,
    outbound, tls_chunk, tls_outbound, tls_outbound_ex, vectored, Message, PendingRead, ReadArgs,
    ReadTap,
};
use edgepacer::ebpf::events::{L7_DIR_INBOUND, L7_DIR_OUTBOUND};
use edgepacer::ebpf::listeners::{listener_candidate, Candidates, ListenOutcome, ListenerTap};
use edgepacer::ebpf::policy::{
    capture_scope, capture_scopes_match, configured_cgroup_levels, level_in, matched_cgroup_scope,
    CaptureScope, CgroupLevelPolicy, CgroupPolicy,
};
use std::collections::HashMap;

const SLOT_B: u64 = 0x8000_0000_0000_0000;

/// Levels as they are packed: a set, its least and its greatest.
fn packed(mask: u64, min: u64, max: u64) -> u64 {
    mask + (min << 32) + (max << 40)
}

fn policy() -> CgroupPolicy {
    let mut allowed_a = HashMap::new();
    allowed_a.insert(100, 7);
    allowed_a.insert(200, 6);
    let mut allowed_b = HashMap::new();
    allowed_b.insert(300, 8);
    CgroupPolicy {
        selector: Some(7),
        levels_a: packed(0b110, 2, 3),
        levels_b: packed(0b1, 1, 1),
        allowed_a,
        allowed_b,
    }
}

fn scope() -> CaptureScope {
    CaptureScope { cgroup_id: 9, scope_cgroup_id: 100, policy_generation: 7 }
}

#[test]
fn levels_are_packed_with_their_bounds() {
    assert!(level_in(0b110, 2));
    assert!(level_in(0b110, 3));
    assert!(!level_in(0b110, 1));
    assert!(!level_in(0b110, 0));
    assert_eq!(
        configured_cgroup_levels(packed(0b110, 2, 3)),
        Some(CgroupLevelPolicy { mask: 0b110, min: 2, max: 3 })
    );
    assert_eq!(configured_cgroup_levels(0), None);
    assert_eq!(configured_cgroup_levels(packed(0b110, 1, 3)), None);
    assert_eq!(configured_cgroup_levels(packed(0b110, 3, 2)), None);
}

#[test]
fn allowed_ancestors_give_the_scope() {
    let p = policy();
    assert_eq!(matched_cgroup_scope(&p, Some(7), 9, &vec![1, 50, 100]), Some((100, 7)));
    assert_eq!(matched_cgroup_scope(&p, Some(7), 9, &vec![1, 100, 50]), None);
    assert_eq!(matched_cgroup_scope(&p, Some(7), 9, &vec![100, 1, 50]), None);
    assert_eq!(matched_cgroup_scope(&p, Some(7), 9, &vec![1, 50, 200]), None);
    assert_eq!(matched_cgroup_scope(&p, Some(7), 9, &vec![1, 2, 3, 100]), Some((100, 7)));
    assert_eq!(matched_cgroup_scope(&p, Some(7), 100, &vec![1]), Some((100, 7)));
}

#[test]
fn a_doubtful_policy_allows_nothing() {
    let p = policy();
    assert_eq!(matched_cgroup_scope(&p, Some(8), 9, &vec![1, 50, 100]), None);
    assert_eq!(matched_cgroup_scope(&p, None, 9, &vec![1, 50, 100]), None);
    assert_eq!(matched_cgroup_scope(&p, Some(7), 0, &vec![1, 50, 100]), None);
}

#[test]
fn the_selector_chooses_the_slot() {
    let mut p = policy();
    p.selector = Some(SLOT_B + 8);
    assert_eq!(matched_cgroup_scope(&p, Some(SLOT_B + 8), 9, &vec![1, 300]), Some((300, 8)));
    assert_eq!(matched_cgroup_scope(&p, Some(SLOT_B + 8), 9, &vec![1, 100]), None);
}

#[test]
fn an_allowed_process_is_captured_without_a_group() {
    let p = policy();
    assert_eq!(
        capture_scope(&p, Some(7), 9, &vec![1, 50, 100], Some(3)),
        Some(scope())
    );
    assert_eq!(
        capture_scope(&p, Some(7), 9, &vec![], Some(3)),
        Some(CaptureScope { cgroup_id: 9, scope_cgroup_id: 0, policy_generation: 3 })
    );
    assert_eq!(capture_scope(&p, Some(7), 9, &vec![], Some(0)), None);
    assert_eq!(capture_scope(&p, Some(7), 9, &vec![], None), None);
    assert!(capture_scopes_match(scope(), scope()));
    assert!(!capture_scopes_match(scope(), CaptureScope { policy_generation: 8, ..scope() }));
}

#[test]
fn records_say_how_long_the_call_was() {
    let chunk = log_chunk(scope(), 5, 0x1_0000_0002, 4000, [1; 128]);
    assert_eq!(chunk.len, 4000);
    assert_eq!(chunk.fd, 2);
    assert_eq!(chunk.scope_cgroup_id, 100);
    assert_eq!(log_chunk(scope(), 5, 1, 3, [1; 128]).len, 3);
    let m = outbound(scope(), 5, 4, 0xff, 2000);
    assert_eq!(m.direction, L7_DIR_OUTBOUND);
    let l7 = l7_chunk(m, [2; 1024]);
    assert_eq!(l7.len, 2000);
    assert_eq!(l7_chunk(Message { count: u64::MAX, ..m }, [2; 1024]).len, u32::MAX);
    assert_eq!(l7.fd, 4);
    let tls = tls_chunk(Message { count: 10, ..m }, [3; 1024]);
    assert_eq!(tls.len, 10);
    assert_eq!(tls_chunk(m, [3; 1024]).len, 1024);
    assert_eq!(tls.ssl, 4);
    assert_eq!(tls.pid, 5);
}

#[test]
fn reads_are_captured_under_an_unchanged_policy() {
    let args = ReadArgs { buf: 0x10, channel: 4, scope: scope() };
    let key = (5u64 << 32) + 6;
    let m = inbound(key, args, 12, Some(scope())).unwrap();
    assert_eq!(
        m,
        Message {
            scope: scope(),
            pid: 5,
            channel: 4,
            direction: L7_DIR_INBOUND,
            buf: 0x10,
            count: 12
        }
    );
    assert_eq!(inbound(key, args, 0, Some(scope())), None);
    assert_eq!(inbound(key, args, -1, Some(scope())), None);
    assert_eq!(inbound(key, args, 12, None), None);
    let changed = CaptureScope { policy_generation: 8, ..scope() };
    assert_eq!(inbound(key, args, 12, Some(changed)), None);
    assert_eq!(inbound_count(key, args, 12, Some(scope())), Some(m));
    assert_eq!(tls_outbound(scope(), 5, 4, 0x10, 0), None);
    assert_eq!(tls_outbound(scope(), 5, 4, 0x10, 9).unwrap().count, 9);
}

#[test]
fn reads_are_remembered_until_they_end() {
    let args = ReadArgs { buf: 0x10, channel: 4, scope: scope() };
    let read = PendingRead { args, readbytes: 0x20 };
    let mut tap = ReadTap::new();
    assert_eq!(tap.take(1), None);
    tap.enter(1, read);
    assert_eq!(tap.take(1), Some(read));
    assert_eq!(tap.take(1), None);
    for key in 0..10240 {
        tap.enter(key, read);
    }
    tap.enter(20000, read);
    assert_eq!(tap.take(20000), None);

    let key = 5u64 << 32;
    assert_eq!(inbound_ex(key, args, 1, Some(7), Some(scope())).unwrap().count, 7);
    assert_eq!(inbound_ex(key, args, 1, Some(0), Some(scope())), None);
    assert_eq!(inbound_ex(key, args, 0, Some(7), Some(scope())), None);
    assert_eq!(inbound_ex(key, args, 1, None, Some(scope())), None);
}

#[test]
fn vectored_writes_show_their_first_piece() {
    let mut iov = [0u8; 16];
    iov[0] = 9;
    iov[8] = 30;
    let m = vectored(scope(), 5, 4, 2, Some(&iov), true).unwrap();
    assert_eq!(m, outbound(scope(), 5, 4, 9, 30));
    assert_eq!(vectored(scope(), 5, 4, 0, Some(&iov), true), None);
    assert_eq!(vectored(scope(), 5, 4, 2, None, true), None);
    assert_eq!(tls_outbound_ex(scope(), 5, 4, 9, 0), None);
    assert_eq!(tls_outbound_ex(scope(), 5, 4, 9, u64::MAX).unwrap().count, u64::MAX);
}

#[test]
fn connections_are_read_from_the_address() {
    let raw = [2, 0, 0x1f, 0x90, 10, 0, 0, 1];
    let e = connect_event(scope(), 5, &raw, true).unwrap();
    assert_eq!(e.dport, 8080);
    assert_eq!(e.daddr, [10, 0, 0, 1]);
    assert_eq!(e.family, 2);
    assert!(connect_event(scope(), 5, &raw, false).is_none());
    assert!(connect_event(scope(), 5, &[10, 0, 0, 0, 0, 0, 0, 0], true).is_none());
    let iov = [1, 0, 0, 0, 0, 0, 0, 0, 0, 1, 0, 0, 0, 0, 0, 0];
    assert_eq!(first_segment(&iov, true), (1, 256));
    assert_eq!(first_segment(&iov, false), (1 << 56, 1 << 48));
}

#[test]
fn listeners_are_published_when_the_call_succeeds() {
    assert!(listener_candidate(10, 6, 0, 2, 9, 5).is_none());
    assert!(listener_candidate(10, 17, 80, 2, 9, 5).is_none());
    assert!(listener_candidate(1, 6, 80, 2, 9, 5).is_none());
    assert!(listener_candidate(10, 6, 80, 1, 9, 5).is_none());
    assert!(listener_candidate(10, 6, 80, 2, 0, 5).is_none());
    let event = listener_candidate(10, 6, 80, 10, 9, 5).unwrap();
    let mut staged = Candidates::new();
    let mut tap = ListenerTap::new();
    assert!(tap.stage(&mut staged, 1, event));
    assert!(matches!(tap.finish(&mut staged, 2, 0, true, 77, 3), ListenOutcome::Nothing));
    match tap.finish(&mut staged, 1, 0, true, 77, 3) {
        ListenOutcome::Published(e) => {
            assert_eq!(e.port, 80);
            assert_eq!(e.tgid, 5);
            assert_eq!(e.observed_at_ns, 77);
            assert_eq!(e.cpu_id, 3);
            assert_eq!(e.sequence, 1);
        }
        _ => panic!("expected a published listener"),
    }
    assert!(matches!(tap.finish(&mut staged, 1, 0, true, 78, 3), ListenOutcome::Nothing));
    assert!(tap.stage(&mut staged, 1, event));
    assert!(matches!(tap.finish(&mut staged, 1, -1, true, 79, 3), ListenOutcome::Nothing));
    assert!(tap.stage(&mut staged, 1, event));
    assert!(matches!(tap.finish(&mut staged, 1, 0, false, 80, 3), ListenOutcome::Dropped));
    for key in 0..1024 {
        assert!(tap.stage(&mut staged, key, event));
    }
    assert!(!tap.stage(&mut staged, 2000, event));
}

#[test]
fn a_call_may_end_on_another_cpu() {
    let event = listener_candidate(10, 6, 80, 10, 9, 5).unwrap();
    let mut staged = Candidates::new();
    let mut first = ListenerTap::new();
    let mut second = ListenerTap { published: 41, drops: 0 };
    assert!(first.stage(&mut staged, 1, event));
    match second.finish(&mut staged, 1, 0, true, 77, 3) {
        ListenOutcome::Published(e) => {
            assert_eq!(e.sequence, 42);
            assert_eq!(e.cpu_id, 3);
            assert_eq!(e.port, 80);
        }
        _ => panic!("expected a published listener"),
    }
    assert_eq!(first, ListenerTap { published: 0, drops: 0 });
    assert!(matches!(first.finish(&mut staged, 1, 0, true, 78, 0), ListenOutcome::Nothing));

    for key in 0..1024 {
        assert!(first.stage(&mut staged, key, event));
    }
    assert!(!second.stage(&mut staged, 2000, event));
    assert_eq!((first.drops, second.drops), (0, 1));
}
