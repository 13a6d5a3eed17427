//! The traffic table.

use netmon::flow::{FlowKey, IpAddr};
use netmon::ranking::{rank, Ranked};
use netmon::table::{EbpfTrafficEntry, EbpfTrafficTable};
use netmon::traffic::{TrafficEvent, TrafficKey, TrafficValue};

fn event(pid: u32, bytes: u32, direction: u8) -> TrafficEvent {
    TrafficEvent {
        pid,
        bytes,
        src_ip4: 0,
        dst_ip4: u32::from_ne_bytes([10, 0, 0, 1]),
        src_ip6: [0; 16],
        dst_ip6: [0; 16],
        src_port: 0,
        dst_port: 443,
        direction,
        af: 2,
        _pad: [0; 2],
    }
}

fn key(pid: u32) -> TrafficKey {
    let mut remote_ip = [0u8; 16];
    remote_ip[12] = 10;
    remote_ip[15] = 1;
    TrafficKey { pid, remote_ip, remote_port: 443, af: 2, _pad: 0 }
}

fn value(rx_bytes: u64, tx_bytes: u64) -> TrafficValue {
    let mut v = TrafficValue { rx_bytes, tx_bytes, comm: [0; 16] };
    v.comm[0] = b'k';
    v
}

fn row_of(rows: &Vec<EbpfTrafficEntry>, pid: u32) -> EbpfTrafficEntry {
    rows.iter().find(|r| r.pid == pid).unwrap().clone()
}

#[test]
fn new_entry_counts_nothing() {
    let e = EbpfTrafficEntry::new(7, "sh".to_string(), IpAddr::V4([1, 2, 3, 4]), 22, 99);
    assert_eq!(e.pid, 7);
    assert_eq!(e.comm, "sh");
    assert_eq!(e.remote_addr, IpAddr::V4([1, 2, 3, 4]));
    assert_eq!(e.remote_port, 22);
    assert_eq!((e.rx_bytes, e.tx_bytes, e.rx_delta, e.tx_delta), (0, 0, 0, 0));
    assert_eq!(e.last_seen, 99);
}

#[test]
fn empty_table_has_an_empty_snapshot() {
    let mut t = EbpfTrafficTable::default();
    assert!(t.accepts_snapshot());
    assert_eq!(t.snapshot(5).len(), 0);
}

#[test]
fn events_are_counted_by_direction() {
    let mut t = EbpfTrafficTable::default();
    assert!(t.needs_comm(&event(1, 100, 1)));
    t.apply_event(&event(1, 100, 1), Some("curl\n".to_string()), 10);
    assert!(!t.needs_comm(&event(1, 100, 1)));
    t.apply_event(&event(1, 30, 0), Some("other".to_string()), 11);
    t.apply_event(&event(1, 4, 7), None, 12);
    let rows = t.snapshot(20);
    assert_eq!(rows.len(), 1);
    assert_eq!(rows[0].comm, "curl");
    assert_eq!(rows[0].remote_addr, IpAddr::V4([10, 0, 0, 1]));
    assert_eq!(rows[0].remote_port, 443);
    assert_eq!((rows[0].rx_bytes, rows[0].tx_bytes), (34, 100));
    assert_eq!((rows[0].rx_delta, rows[0].tx_delta), (34, 100));
    assert_eq!(rows[0].last_seen, 12);
}

#[test]
fn unreadable_comm_file_gives_an_empty_name() {
    let mut t = EbpfTrafficTable::default();
    t.apply_event(&event(1, 1, 1), None, 0);
    assert_eq!(t.snapshot(0)[0].comm, "");
}

#[test]
fn deltas_are_since_the_last_snapshot() {
    let mut t = EbpfTrafficTable::default();
    t.apply_event(&event(1, 100, 1), None, 0);
    t.snapshot(1);
    t.apply_event(&event(1, 5, 1), None, 2);
    let rows = t.snapshot(3);
    assert_eq!(rows[0].tx_bytes, 105);
    assert_eq!(rows[0].tx_delta, 5);
    assert_eq!(t.snapshot(4)[0].tx_delta, 0);
}

#[test]
fn kernel_totals_feed_the_lifetime() {
    let mut t = EbpfTrafficTable::default();
    assert!(t.accepts_totals(&key(1), &value(10, 20)));
    t.upsert(&key(1), &value(10, 20), 0);
    t.upsert(&key(1), &value(10, 20), 1);
    t.upsert(&key(1), &value(15, 20), 2);
    let rows = t.snapshot(3);
    assert_eq!(rows[0].comm, "k");
    assert_eq!((rows[0].rx_bytes, rows[0].tx_bytes), (15, 20));
    assert_eq!(rows[0].last_seen, 2);
}

#[test]
fn polls_in_between_make_no_difference() {
    let mut often = EbpfTrafficTable::default();
    often.upsert(&key(1), &value(3, 4), 0);
    often.upsert(&key(1), &value(7, 9), 1);
    let mut once = EbpfTrafficTable::default();
    once.upsert(&key(1), &value(7, 9), 1);
    let a = often.snapshot(2);
    let b = once.snapshot(2);
    assert_eq!((a[0].rx_bytes, a[0].tx_bytes), (b[0].rx_bytes, b[0].tx_bytes));
}

#[test]
fn lifetime_survives_a_kernel_reset() {
    let mut t = EbpfTrafficTable::default();
    t.upsert(&key(1), &value(100, 200), 0);
    t.upsert(&key(1), &value(30, 6), 1);
    let rows = t.snapshot(2);
    assert_eq!((rows[0].rx_bytes, rows[0].tx_bytes), (130, 206));
    t.upsert(&key(1), &value(40, 26), 3);
    let rows = t.snapshot(4);
    assert_eq!((rows[0].rx_bytes, rows[0].tx_bytes), (140, 226));
}

#[test]
fn kernel_name_is_used_for_departed_flows() {
    let mut t = EbpfTrafficTable::default();
    t.apply_event(&event(1, 1, 0), Some("first".to_string()), 0);
    t.upsert(&key(1), &value(2, 0), 0);
    assert_eq!(t.snapshot(0)[0].comm, "first");
    t.evict_stale(10, 10);
    assert_eq!(t.snapshot(20)[0].comm, "k");
}

#[test]
fn stale_rows_go_and_fresh_rows_stay() {
    let mut t = EbpfTrafficTable::default();
    t.apply_event(&event(1, 1, 0), None, 0);
    t.apply_event(&event(2, 1, 0), None, 5);
    t.apply_event(&event(3, 1, 0), None, 20);
    t.evict_stale(10, 10);
    assert!(t.needs_comm(&event(1, 0, 0)));
    assert!(!t.needs_comm(&event(2, 0, 0)));
    assert!(!t.needs_comm(&event(3, 0, 0)));
    t.evict_stale(0, 0);
    assert!(t.needs_comm(&event(3, 0, 0)));
}

#[test]
fn departed_flow_shows_lifetime_totals_without_deltas() {
    let mut t = EbpfTrafficTable::default();
    t.apply_event(&event(1, 40, 0), Some("wget".to_string()), 0);
    t.apply_event(&event(1, 2, 1), None, 0);
    t.evict_stale(30, 30);
    let rows = t.snapshot(77);
    assert_eq!(rows.len(), 1);
    assert_eq!(rows[0].comm, "wget");
    assert_eq!((rows[0].rx_bytes, rows[0].tx_bytes), (40, 2));
    assert_eq!((rows[0].rx_delta, rows[0].tx_delta), (0, 0));
    assert_eq!(rows[0].last_seen, 77);
}

#[test]
fn departed_flow_that_only_sent_is_shown() {
    let mut t = EbpfTrafficTable::default();
    t.apply_event(&event(1, 40, 1), Some("nc".to_string()), 0);
    t.evict_stale(30, 30);
    let rows = t.snapshot(31);
    assert_eq!(rows.len(), 1);
    assert_eq!(rows[0].comm, "nc");
    assert_eq!((rows[0].rx_bytes, rows[0].tx_bytes), (0, 40));
}

#[test]
fn departed_flow_without_bytes_is_not_shown() {
    let mut t = EbpfTrafficTable::default();
    t.apply_event(&event(1, 0, 0), None, 0);
    assert_eq!(t.snapshot(0).len(), 1);
    t.evict_stale(30, 30);
    assert_eq!(t.snapshot(31).len(), 0);
}

#[test]
fn a_flow_that_comes_back_keeps_its_lifetime() {
    let mut t = EbpfTrafficTable::default();
    t.apply_event(&event(1, 40, 0), Some("a".to_string()), 0);
    t.evict_stale(30, 30);
    t.apply_event(&event(1, 2, 0), Some("b".to_string()), 40);
    let rows = t.snapshot(41);
    assert_eq!(rows[0].rx_bytes, 42);
    assert_eq!(rows[0].rx_delta, 42);
    assert_eq!(rows[0].comm, "b");
}

#[test]
fn delta_of_a_flow_that_comes_back_is_what_is_new() {
    let mut t = EbpfTrafficTable::default();
    t.apply_event(&event(1, 100, 0), None, 0);
    assert_eq!(t.snapshot(1)[0].rx_delta, 100);
    t.evict_stale(30, 30);
    t.apply_event(&event(1, 40, 0), None, 40);
    let rows = t.snapshot(41);
    assert_eq!((rows[0].rx_bytes, rows[0].rx_delta), (140, 40));
}

#[test]
fn event_and_scan_count_a_byte_once() {
    let mut t = EbpfTrafficTable::default();
    t.apply_event(&event(1, 100, 0), None, 0);
    t.upsert(&key(1), &value(100, 0), 1);
    assert_eq!(t.snapshot(2)[0].rx_bytes, 100);
    t.apply_event(&event(1, 20, 0), None, 3);
    t.apply_event(&event(1, 5, 0), None, 4);
    t.upsert(&key(1), &value(125, 0), 5);
    t.upsert(&key(1), &value(125, 0), 6);
    let rows = t.snapshot(7);
    assert_eq!((rows[0].rx_bytes, rows[0].rx_delta), (125, 25));
}

#[test]
fn event_behind_its_scan_counts_again() {
    let mut t = EbpfTrafficTable::default();
    t.upsert(&key(1), &value(100, 0), 0);
    t.apply_event(&event(1, 100, 0), None, 1);
    t.upsert(&key(1), &value(100, 0), 2);
    assert_eq!(t.snapshot(3)[0].rx_bytes, 200);
    t.upsert(&key(1), &value(160, 0), 4);
    assert_eq!(t.snapshot(5)[0].rx_bytes, 200);
    t.upsert(&key(1), &value(210, 0), 6);
    assert_eq!(t.snapshot(7)[0].rx_bytes, 210);
}

#[test]
fn event_of_a_released_key_counts_again() {
    let mut t = EbpfTrafficTable::default();
    t.upsert(&key(1), &value(100, 0), 0);
    t.release(&key(1));
    t.apply_event(&event(1, 100, 0), None, 1);
    assert_eq!(t.snapshot(2)[0].rx_bytes, 200);
}

#[test]
fn scan_makes_up_for_lost_events() {
    let mut t = EbpfTrafficTable::default();
    t.apply_event(&event(1, 40, 1), None, 0);
    t.upsert(&key(1), &value(0, 100), 1);
    assert_eq!(t.snapshot(2)[0].tx_bytes, 100);
}

#[test]
fn scan_behind_the_events_adds_nothing() {
    let mut t = EbpfTrafficTable::default();
    t.apply_event(&event(1, 60, 1), None, 0);
    t.upsert(&key(1), &value(0, 50), 1);
    assert_eq!(t.snapshot(2)[0].tx_bytes, 60);
    t.upsert(&key(1), &value(0, 60), 3);
    assert_eq!(t.snapshot(4)[0].tx_bytes, 60);
    t.upsert(&key(1), &value(0, 61), 5);
    assert_eq!(t.snapshot(6)[0].tx_bytes, 61);
}

#[test]
fn cached_name_outlives_the_process() {
    let mut t = EbpfTrafficTable::default();
    t.apply_event(&event(1, 1, 0), Some("curl\n".to_string()), 0);
    t.evict_stale(30, 30);
    assert!(t.needs_comm(&event(1, 1, 0)));
    t.apply_event(&event(1, 1, 0), None, 40);
    assert_eq!(t.snapshot(41)[0].comm, "curl");
    t.evict_stale(30, 80);
    assert_eq!(t.snapshot(81)[0].comm, "curl");
}

#[test]
fn released_key_starts_over() {
    let mut t = EbpfTrafficTable::default();
    t.upsert(&key(1), &value(100, 10), 0);
    t.release(&key(1));
    assert_eq!(t.snapshot(1)[0].rx_bytes, 100);
    t.upsert(&key(1), &value(100, 20), 2);
    let rows = t.snapshot(3);
    assert_eq!((rows[0].rx_bytes, rows[0].tx_bytes), (200, 30));
}

#[test]
fn snapshots_in_a_row_agree() {
    let mut t = EbpfTrafficTable::default();
    t.apply_event(&event(1, 10, 0), Some("one".to_string()), 0);
    t.apply_event(&event(2, 30, 1), Some("two".to_string()), 50);
    t.evict_stale(30, 50);
    let a = t.snapshot(51);
    assert!(t.accepts_snapshot());
    let b = t.snapshot(52);
    assert_eq!(a.len(), 2);
    assert_eq!(b.len(), 2);
    for i in 0..2 {
        assert_eq!(a[i].pid, b[i].pid);
        assert_eq!((a[i].rx_bytes, a[i].tx_bytes), (b[i].rx_bytes, b[i].tx_bytes));
        assert_eq!(a[i].comm, b[i].comm);
        assert_eq!((b[i].rx_delta, b[i].tx_delta), (0, 0));
    }
}

#[test]
fn snapshot_puts_large_totals_first() {
    let mut t = EbpfTrafficTable::default();
    t.apply_event(&event(1, 10, 0), None, 0);
    t.apply_event(&event(2, 30, 1), None, 50);
    t.apply_event(&event(3, 20, 0), None, 50);
    t.apply_event(&event(4, 10, 0), None, 50);
    t.evict_stale(30, 50);
    let rows = t.snapshot(51);
    let pids: Vec<u32> = rows.iter().map(|r| r.pid).collect();
    assert_eq!(pids, vec![2, 3, 4, 1]);
    assert_eq!(row_of(&rows, 3).rx_bytes, 20);
}

#[test]
fn counts_that_would_run_over_are_not_accepted() {
    let mut t = EbpfTrafficTable::default();
    t.upsert(&key(1), &value(u64::MAX, u64::MAX - 1), 0);
    assert!(!t.accepts_event(&event(1, 1, 0)));
    assert!(t.accepts_event(&event(1, 0, 0)));
    assert!(t.accepts_event(&event(1, 1, 1)));
    assert!(!t.accepts_event(&event(1, 2, 1)));
    t.upsert(&key(1), &value(0, 0), 1);
    assert!(!t.accepts_totals(&key(1), &value(1, 0)));
    assert!(t.accepts_totals(&key(1), &value(0, 1)));
}

#[test]
fn totals_that_do_not_fit_block_a_comparison_only() {
    let mut t = EbpfTrafficTable::default();
    t.upsert(&key(1), &value(u64::MAX, 1), 0);
    assert!(t.accepts_snapshot());
    t.upsert(&key(2), &value(1, 1), 0);
    assert!(!t.accepts_snapshot());
}

#[test]
fn departed_total_must_fit() {
    let mut t = EbpfTrafficTable::default();
    t.upsert(&key(1), &value(u64::MAX, 1), 0);
    t.evict_stale(1, 1);
    assert!(!t.accepts_snapshot());
}

#[test]
fn ranking_keeps_every_item() {
    let flow = |pid: u32| FlowKey { pid, remote_addr: IpAddr::V4([0; 4]), remote_port: 0 };
    let items = vec![
        Ranked { key: flow(1), total: 5, live: false },
        Ranked { key: flow(2), total: 5, live: true },
        Ranked { key: flow(3), total: 9, live: false },
        Ranked { key: flow(4), total: 0, live: true },
        Ranked { key: flow(5), total: 5, live: false },
    ];
    let pids: Vec<u32> = rank(&items).iter().map(|r| r.key.pid).collect();
    assert_eq!(pids.len(), 5);
    assert_eq!(pids[0], 3);
    assert_eq!(pids[1], 2);
    assert_eq!(pids[4], 4);
}

#[test]
fn idle_flow_has_no_delta() {
    let mut t = EbpfTrafficTable::default();
    t.apply_event(&event(1, 50, 0), None, 0);
    t.upsert(&key(1), &value(50, 0), 1);
    assert_eq!(t.snapshot(2)[0].rx_delta, 50);
    assert_eq!(t.snapshot(3)[0].rx_delta, 0);
    assert_eq!(t.snapshot(4)[0].rx_delta, 0);
    assert_eq!(t.snapshot(5)[0].rx_bytes, 50);
}

#[test]
fn flows_do_not_touch_each_other() {
    let mut t = EbpfTrafficTable::default();
    t.apply_event(&event(1, 50, 0), Some("one".to_string()), 0);
    t.apply_event(&event(2, 7, 1), Some("two".to_string()), 1);
    t.upsert(&key(2), &value(1, 2), 2);
    let rows = t.snapshot(3);
    let one = row_of(&rows, 1);
    assert_eq!((one.rx_bytes, one.tx_bytes, one.last_seen), (50, 0, 0));
    assert_eq!(one.comm, "one");
    let two = row_of(&rows, 2);
    assert_eq!((two.rx_bytes, two.tx_bytes), (1, 7));
}

#[test]
fn lifetime_is_what_the_kernel_counted_and_later_events() {
    let mut t = EbpfTrafficTable::default();
    t.upsert(&key(1), &value(10, 0), 0);
    t.apply_event(&event(1, 4, 0), None, 1);
    t.evict_stale(1, 9);
    t.upsert(&key(1), &value(25, 0), 10);
    t.snapshot(11);
    t.apply_event(&event(1, 1, 0), None, 12);
    assert_eq!(t.snapshot(13)[0].rx_bytes, 26);
}
