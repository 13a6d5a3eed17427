//! The poll loop, and what is loaded.

use netmon::loader::{attachments, capture_notice};
use netmon::flow::IpAddr;
use netmon::poller::{dead_keys, take_in, PollAction, Poller, POLL_PAUSE, STALE_TTL};
use netmon::table::EbpfTrafficTable;
use netmon::traffic::{TrafficEvent, TrafficKey, TrafficValue};

#[test]
fn records_are_drained_first() {
    let mut p = Poller::new(100, 0);
    assert_eq!(p.wanted, PollAction::NextRecord);
    let mut record = [0u8; 56];
    record[0] = 9;
    let ev: TrafficEvent = p.on_record(Some(&record), 500).unwrap();
    assert_eq!(ev.pid, 9);
    assert_eq!(p.wanted, PollAction::NextRecord);
    assert!(p.on_record(Some(&record[1..]), 500).is_none());
    assert_eq!(p.wanted, PollAction::NextRecord);
}

#[test]
fn scan_comes_when_it_is_due() {
    let mut p = Poller::new(100, 10);
    assert!(p.on_record(None, 109).is_none());
    assert_eq!(p.wanted, PollAction::Sleep);
    p.on_slept();
    assert_eq!(p.wanted, PollAction::NextRecord);
    assert!(p.on_record(None, 110).is_none());
    assert_eq!(p.wanted, PollAction::Scan);
    p.on_scanned(120);
    assert_eq!(p.wanted, PollAction::Prune);
    assert_eq!(p.last_scan, 120);
    p.on_pruned();
    assert_eq!(p.wanted, PollAction::Sleep);
    assert_eq!(p.last_scan, 120);
    p.on_slept();
    p.on_record(None, 219);
    assert_eq!(p.wanted, PollAction::Sleep);
}

#[test]
fn clock_that_went_back_makes_no_scan_due() {
    let mut p = Poller::new(1, 10);
    p.on_record(None, 5);
    assert_eq!(p.wanted, PollAction::Sleep);
    let mut always = Poller::new(0, 10);
    always.on_record(None, 5);
    assert_eq!(always.wanted, PollAction::Scan);
}

fn key(pid: u32, remote_port: u16) -> TrafficKey {
    TrafficKey { pid, remote_ip: [0; 16], remote_port, af: 2, _pad: 0 }
}

#[test]
fn keys_of_dead_processes_are_pruned() {
    let keys = vec![key(7, 1), key(8, 1), key(7, 2), key(9, 1)];
    let dead = dead_keys(&keys, &vec![1, 8, 100]);
    assert_eq!(dead.len(), 3);
    assert!(dead[0] == key(7, 1));
    assert!(dead[1] == key(7, 2));
    assert!(dead[2] == key(9, 1));
    assert_eq!(dead_keys(&keys, &vec![9, 8, 7]).len(), 0);
    assert_eq!(dead_keys(&keys, &vec![]).len(), 4);
    assert_eq!(dead_keys(&vec![], &vec![1]).len(), 0);
}

fn value(rx_bytes: u64, tx_bytes: u64) -> TrafficValue {
    TrafficValue { rx_bytes, tx_bytes, comm: *b"sh\0\0\0\0\0\0\0\0\0\0\0\0\0\0" }
}

#[test]
fn scan_takes_totals_in_and_evicts_quiet_rows() {
    let mut t = EbpfTrafficTable::default();
    assert_eq!(take_in(&mut t, &vec![(key(1, 5), value(9, 0))], 0), Ok(()));
    let totals = vec![
        (key(7, 1), value(3, 4)),
        (key(8, 1), value(1, 0)),
        (key(7, 1), value(3, 6)),
    ];
    assert_eq!(take_in(&mut t, &totals, STALE_TTL), Ok(()));
    let rows = t.snapshot(STALE_TTL + 1);
    assert_eq!(rows.len(), 3);
    let quiet = rows.iter().find(|r| r.pid == 1).unwrap();
    assert_eq!((quiet.rx_bytes, quiet.rx_delta, quiet.last_seen), (9, 0, STALE_TTL + 1));
    let seen = rows.iter().find(|r| r.pid == 7).unwrap();
    assert_eq!((seen.rx_bytes, seen.tx_bytes, seen.last_seen), (3, 6, STALE_TTL));
    assert_eq!(seen.remote_addr, IpAddr::V4([0; 4]));
    assert_eq!(seen.comm, "sh");
}

#[test]
fn scan_of_nothing_only_evicts() {
    let mut t = EbpfTrafficTable::default();
    assert_eq!(take_in(&mut t, &vec![(key(1, 5), value(9, 2))], 0), Ok(()));
    assert_eq!(take_in(&mut t, &vec![], STALE_TTL - 1), Ok(()));
    assert_eq!(t.snapshot(STALE_TTL)[0].last_seen, 0);
    assert_eq!(take_in(&mut t, &vec![], STALE_TTL), Ok(()));
    assert_eq!(t.snapshot(STALE_TTL)[0].last_seen, STALE_TTL);
}

#[test]
fn scan_stops_at_a_total_that_does_not_fit() {
    let mut t = EbpfTrafficTable::default();
    assert_eq!(take_in(&mut t, &vec![(key(1, 5), value(u64::MAX, 0))], 0), Ok(()));
    let totals = vec![
        (key(2, 5), value(1, 0)),
        (key(1, 5), value(1, 0)),
        (key(3, 5), value(1, 0)),
    ];
    assert_eq!(take_in(&mut t, &totals, 1), Err(1));
    assert_eq!(t.accepts_totals(&key(1, 5), &value(1, 0)), false);
    t.evict_stale(0, 1);
    assert_eq!(t.accepts_snapshot(), true);
    let pids: Vec<u32> = t.snapshot(2).iter().map(|r| r.pid).collect();
    assert_eq!(pids, vec![1, 2]);
}

#[test]
fn spans_of_the_loop() {
    assert_eq!(STALE_TTL, 30 * 1_000_000_000);
    assert_eq!(POLL_PAUSE, 10 * 1_000_000);
}

#[test]
fn probes_are_attached_in_order() {
    let plan: Vec<(String, String)> =
        attachments().into_iter().map(|a| (a.program, a.function)).collect();
    let expected = [
        ("netmon_tcp_sendmsg", "tcp_sendmsg"),
        ("netmon_tcp_recvmsg_ret", "tcp_recvmsg"),
        ("netmon_udp_sendmsg", "udp_sendmsg"),
        ("netmon_udp_recvmsg_ret", "udp_recvmsg"),
        ("netmon_udpv6_sendmsg", "udpv6_sendmsg"),
        ("netmon_udpv6_recvmsg_ret", "udpv6_recvmsg"),
    ];
    assert_eq!(plan.len(), 6);
    for i in 0..6 {
        assert_eq!(plan[i].0, expected[i].0);
        assert_eq!(plan[i].1, expected[i].1);
    }
}

#[test]
fn notices_of_capture() {
    assert_eq!(capture_notice(false, false), None);
    assert_eq!(capture_notice(false, true), None);
    assert_eq!(capture_notice(true, true), Some("netmon: eBPF traffic capture active"));
    assert_eq!(
        capture_notice(true, false),
        Some("netmon: eBPF unavailable, using /proc fallback")
    );
}
