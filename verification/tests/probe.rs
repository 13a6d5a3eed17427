//! The probe machines, run against a small kernel.

use std::collections::HashMap;

use netmon::flow::IpAddr;
use netmon::probe::{
    goes_out_as_v6, make_ipv4_key, make_ipv6_key, netmon_tcp_recvmsg, netmon_tcp_recvmsg_ret,
    netmon_tcp_sendmsg, netmon_udp_recvmsg_ret, netmon_udp_sendmsg, netmon_udpv6_recvmsg_ret,
    netmon_udpv6_sendmsg, read_sockaddr_in, should_track, update_totals, ProbeAction, ProbePath,
    ProbeReply, ProbeState, Remote, TotalsUpdate, Transfer,
};
use netmon::traffic::{Direction, TrafficEvent, TrafficKey, TrafficValue};

/// 2001:db8::1
const PEER6: [u8; 16] = [0x20, 1, 0x0D, 0xB8, 0, 0, 0, 0, 0, 0, 0, 0, 0, 0, 0, 1];

/// An address as the kernel has it in memory, read as a number.
fn ip(octets: [u8; 4]) -> u32 {
    u32::from_ne_bytes(octets)
}

struct Kernel {
    args: Vec<Option<u64>>,
    returned: Option<i64>,
    task: u64,
    filter: Vec<u32>,
    memory: HashMap<u64, u64>,
    addrs: HashMap<u64, [u8; 16]>,
    totals: HashMap<TrafficKey, TrafficValue>,
    events: Vec<TrafficEvent>,
    actions: usize,
}

fn kernel() -> Kernel {
    let mut memory = HashMap::new();
    memory.insert(0x1000, ip([10, 0, 0, 1]) as u64);
    memory.insert(0x100C, 0x5000);
    memory.insert(0x2000, 0x3000);
    memory.insert(0x3002, 0x3500);
    memory.insert(0x3004, ip([9, 8, 7, 6]) as u64);
    let mut addrs = HashMap::new();
    addrs.insert(0x4008, PEER6);
    memory.insert(0x4000, 10);
    memory.insert(0x4002, 0x3500);
    Kernel {
        args: vec![Some(0x1000), Some(0x2000), Some(1500)],
        returned: Some(700),
        task: (77 << 32) | 5,
        filter: vec![],
        memory,
        addrs,
        totals: HashMap::new(),
        events: vec![],
        actions: 0,
    }
}

impl Kernel {
    fn run(&mut self, start: ProbeState) -> u32 {
        let mut state = start;
        loop {
            let reply = match state.action() {
                ProbeAction::ReadArg(n) => ProbeReply::Arg(self.args[n]),
                ProbeAction::ReadReturned => ProbeReply::Returned(self.returned),
                ProbeAction::ReadTask => ProbeReply::Task(self.task),
                ProbeAction::PeekFilter => ProbeReply::FilterEmpty(self.filter.is_empty()),
                ProbeAction::LookupFilter(pid) => ProbeReply::Listed(self.filter.contains(&pid)),
                ProbeAction::ReadU16(at) => {
                    ProbeReply::U16(self.memory.get(&at).map(|v| *v as u16))
                }
                ProbeAction::ReadU32(at) => {
                    ProbeReply::U32(self.memory.get(&at).map(|v| *v as u32))
                }
                ProbeAction::ReadU64(at) => ProbeReply::U64(self.memory.get(&at).copied()),
                ProbeAction::ReadAddr(at) => ProbeReply::Addr(self.addrs.get(&at).copied()),
                ProbeAction::ReadComm => ProbeReply::Comm(*b"sshd\0\0\0\0\0\0\0\0\0\0\0\0"),
                ProbeAction::LookupTotals(key) => {
                    ProbeReply::Totals(self.totals.get(&key).copied())
                }
                ProbeAction::UpdateTotals(key, TotalsUpdate::Insert(value)) => {
                    let v = self.totals.entry(key).or_insert(TrafficValue {
                        rx_bytes: 0,
                        tx_bytes: 0,
                        comm: value.comm,
                    });
                    v.rx_bytes = v.rx_bytes.wrapping_add(value.rx_bytes);
                    v.tx_bytes = v.tx_bytes.wrapping_add(value.tx_bytes);
                    ProbeReply::Done
                }
                ProbeAction::UpdateTotals(key, TotalsUpdate::Count(dir, bytes)) => {
                    if let Some(v) = self.totals.get_mut(&key) {
                        match dir {
                            Direction::Rx => v.rx_bytes = v.rx_bytes.wrapping_add(bytes),
                            Direction::Tx => v.tx_bytes = v.tx_bytes.wrapping_add(bytes),
                        }
                    }
                    ProbeReply::Done
                }
                ProbeAction::EmitEvent(ev) => {
                    self.events.push(ev);
                    ProbeReply::Done
                }
                ProbeAction::Return(code) => return code,
            };
            self.actions += 1;
            assert!(state.accepts(&reply));
            state = state.step(reply);
        }
    }

    fn is_untouched(&self) -> bool {
        self.totals.is_empty() && self.events.is_empty()
    }
}

#[test]
fn tcp_send_is_recorded() {
    let mut k = kernel();
    assert_eq!(k.run(netmon_tcp_sendmsg()), 0);
    let key = make_ipv4_key(77, ip([10, 0, 0, 1]), 80);
    let v = k.totals.get(&key).unwrap();
    assert_eq!((v.rx_bytes, v.tx_bytes), (0, 1500));
    assert_eq!(v.comm_str(), "sshd");
    assert_eq!(k.events.len(), 1);
    let ev = k.events[0];
    assert_eq!((ev.pid, ev.bytes, ev.dst_ip4, ev.dst_port), (77, 1500, ip([10, 0, 0, 1]), 80));
    assert_eq!((ev.src_ip4, ev.src_port, ev.direction, ev.af), (0, 0, 1, 2));
    assert_eq!((ev.src_ip6, ev.dst_ip6, ev._pad), ([0; 16], [0; 16], [0; 2]));
    assert_eq!(ev.flow_key(), key.flow_key());
    assert_eq!(ev.flow_key().remote_addr, IpAddr::V4([10, 0, 0, 1]));
}

#[test]
fn udp_send_is_recorded() {
    let mut k = kernel();
    k.filter = vec![78, 77];
    assert_eq!(k.run(netmon_udp_sendmsg()), 0);
    let key = make_ipv4_key(77, ip([9, 8, 7, 6]), 53);
    assert_eq!(k.totals.get(&key).unwrap().tx_bytes, 1500);
    assert_eq!(k.events[0].dst_port, 53);
    assert_eq!(k.actions, 12);
}

#[test]
fn receives_are_recorded_under_the_process_alone() {
    for start in [netmon_tcp_recvmsg_ret(), netmon_udp_recvmsg_ret(), netmon_udpv6_recvmsg_ret()] {
        let mut k = kernel();
        assert_eq!(k.run(start), 0);
        let key = TrafficKey { pid: 77, remote_ip: [0; 16], remote_port: 0, af: 2, _pad: 0 };
        let v = k.totals.get(&key).unwrap();
        assert_eq!((v.rx_bytes, v.tx_bytes), (700, 0));
        assert_eq!(k.events[0].direction, 0);
        assert_eq!(k.events[0].bytes, 700);
        assert_eq!(k.events[0].flow_key().remote_addr, IpAddr::V4([0; 4]));
    }
}

#[test]
fn receive_entry_probe_does_nothing() {
    let mut k = kernel();
    assert_eq!(k.run(netmon_tcp_recvmsg()), 0);
    assert!(k.is_untouched());
    assert_eq!(k.actions, 0);
}

#[test]
fn totals_run_over_several_calls() {
    let mut k = kernel();
    k.run(netmon_tcp_sendmsg());
    k.args[2] = Some(500);
    k.run(netmon_tcp_sendmsg());
    let key = make_ipv4_key(77, ip([10, 0, 0, 1]), 80);
    assert_eq!(k.totals.get(&key).unwrap().tx_bytes, 2000);
    assert_eq!(k.totals.len(), 1);
    assert_eq!(k.events.len(), 2);
}

#[test]
fn nothing_transferred_is_not_recorded() {
    for size in [None, Some(0)] {
        let mut k = kernel();
        k.args[2] = size;
        k.run(netmon_tcp_sendmsg());
        k.run(netmon_udp_sendmsg());
        assert!(k.is_untouched());
    }
    for returned in [None, Some(0), Some(-11)] {
        let mut k = kernel();
        k.returned = returned;
        k.run(netmon_tcp_recvmsg_ret());
        k.run(netmon_udp_recvmsg_ret());
        assert!(k.is_untouched());
    }
}

#[test]
fn totals_take_counts_beyond_thirty_two_bits_whole() {
    let mut k = kernel();
    k.args[2] = Some(0x1_0000_0007);
    k.run(netmon_tcp_sendmsg());
    k.run(netmon_tcp_sendmsg());
    assert_eq!(k.events[0].bytes, 7);
    let sent = k.totals.get(&make_ipv4_key(77, ip([10, 0, 0, 1]), 80)).unwrap();
    assert_eq!(sent.tx_bytes, 0x2_0000_000E);
    k.returned = Some(0x2_0000_0003);
    k.run(netmon_tcp_recvmsg_ret());
    assert_eq!(k.events[2].bytes, 3);
    let received = k.totals.get(&make_ipv4_key(77, 0, 0)).unwrap();
    assert_eq!(received.rx_bytes, 0x2_0000_0003);
}

fn kernel_v6() -> Kernel {
    let mut k = kernel();
    k.memory.insert(0x2000, 0x4000);
    k
}

#[test]
fn udpv6_send_is_recorded() {
    let mut k = kernel_v6();
    k.filter = vec![78, 77];
    assert_eq!(k.run(netmon_udpv6_sendmsg()), 0);
    let key = make_ipv6_key(77, PEER6, 53);
    let v = k.totals.get(&key).unwrap();
    assert_eq!((v.rx_bytes, v.tx_bytes), (0, 1500));
    let ev = k.events[0];
    assert_eq!((ev.af, ev.dst_ip4, ev.dst_ip6, ev.dst_port), (10, 0, PEER6, 53));
    assert_eq!((ev.pid, ev.bytes, ev.direction), (77, 1500, 1));
    assert_eq!(ev.flow_key(), key.flow_key());
    assert_eq!(ev.flow_key().remote_addr, IpAddr::V6(PEER6));
    assert_eq!(k.actions, 13);
}

#[test]
fn udpv6_send_without_an_ipv6_destination_is_not_recorded() {
    let mut k = kernel_v6();
    k.memory.insert(0x2000, 0);
    k.run(netmon_udpv6_sendmsg());
    assert!(k.is_untouched());
    let mut k = kernel_v6();
    k.memory.insert(0x4000, 2);
    k.run(netmon_udpv6_sendmsg());
    assert!(k.is_untouched());
    for at in [0x2000, 0x4000, 0x4002] {
        let mut k = kernel_v6();
        k.memory.remove(&at);
        k.run(netmon_udpv6_sendmsg());
        assert!(k.is_untouched());
    }
    let mapped = [0, 0, 0, 0, 0, 0, 0, 0, 0, 0, 0xFF, 0xFF, 9, 8, 7, 6];
    for addr in [None, Some([0; 16]), Some(mapped)] {
        let mut k = kernel_v6();
        k.addrs.clear();
        if let Some(addr) = addr {
            k.addrs.insert(0x4008, addr);
        }
        k.run(netmon_udpv6_sendmsg());
        assert!(k.is_untouched());
    }
    let mut k = kernel_v6();
    k.args[2] = Some(0);
    k.run(netmon_udpv6_sendmsg());
    assert!(k.is_untouched());
}

#[test]
fn destinations_that_go_out_as_ipv6() {
    assert!(goes_out_as_v6(&PEER6));
    assert!(!goes_out_as_v6(&[0; 16]));
    let loopback = [0, 0, 0, 0, 0, 0, 0, 0, 0, 0, 0, 0, 0, 0, 0, 1];
    assert!(goes_out_as_v6(&loopback));
    let mut mapped = [0, 0, 0, 0, 0, 0, 0, 0, 0, 0, 0xFF, 0xFF, 1, 2, 3, 4];
    assert!(!goes_out_as_v6(&mapped));
    mapped[9] = 1;
    assert!(goes_out_as_v6(&mapped));
    mapped[9] = 0;
    mapped[11] = 0xFE;
    assert!(goes_out_as_v6(&mapped));
}

#[test]
fn transfers_give_keys_and_events() {
    let t = Transfer {
        pid: 4,
        bytes: 0x3_0000_0001,
        direction: Direction::Tx,
        remote: Remote::V6(PEER6),
        remote_port: 99,
    };
    assert!(t.to_key() == make_ipv6_key(4, PEER6, 99));
    assert_eq!(t.to_event().bytes, 1);
    let t4 = Transfer { remote: Remote::V4(ip([1, 2, 3, 4])), ..t };
    assert!(t4.to_key() == make_ipv4_key(4, ip([1, 2, 3, 4]), 99));
    assert_eq!(t4.to_event().af, 2);
}

#[test]
fn filter_keeps_out_unlisted_processes() {
    let mut k = kernel_v6();
    for filter in [vec![78], vec![0xFFFF_FFFF], vec![42, 78]] {
        k.filter = filter;
        k.run(netmon_tcp_sendmsg());
        k.run(netmon_udp_sendmsg());
        k.run(netmon_udpv6_sendmsg());
        k.run(netmon_tcp_recvmsg_ret());
        k.run(netmon_udp_recvmsg_ret());
        k.run(netmon_udpv6_recvmsg_ret());
        assert!(k.is_untouched());
    }
}

#[test]
fn filter_lets_listed_processes_through() {
    let mut k = kernel();
    k.filter = vec![77];
    k.run(netmon_tcp_sendmsg());
    assert_eq!(k.events.len(), 1);
}

#[test]
fn empty_filter_keeps_nobody_out() {
    let mut k = kernel();
    k.run(netmon_tcp_sendmsg());
    assert_eq!(k.events.len(), 1);
    assert!(should_track(true, false));
    assert!(should_track(true, true));
    assert!(should_track(false, true));
    assert!(!should_track(false, false));
}

#[test]
fn two_calls_that_find_a_new_key_add_up() {
    let mut k = kernel();
    let key = make_ipv4_key(77, ip([10, 0, 0, 1]), 80);
    let transfer = Transfer {
        pid: 77,
        bytes: 100,
        direction: Direction::Tx,
        remote: Remote::V4(ip([10, 0, 0, 1])),
        remote_port: 80,
    };
    let first = ProbeState::Update {
        transfer,
        update: update_totals(None, 100, Direction::Tx, &[b'a'; 16]),
    };
    let second = ProbeState::Update {
        transfer: Transfer { bytes: 30, ..transfer },
        update: update_totals(None, 30, Direction::Tx, &[b'b'; 16]),
    };
    k.run(first);
    k.run(second);
    let v = k.totals.get(&key).unwrap();
    assert_eq!((v.rx_bytes, v.tx_bytes, v.comm), (0, 130, [b'a'; 16]));
    assert_eq!(k.events.len(), 2);
}

#[test]
fn failed_reads_are_not_recorded() {
    for at in [0x1000, 0x100C] {
        let mut k = kernel();
        k.memory.remove(&at);
        k.run(netmon_tcp_sendmsg());
        assert!(k.is_untouched());
    }
    for at in [0x2000, 0x3002, 0x3004] {
        let mut k = kernel();
        k.memory.remove(&at);
        k.run(netmon_udp_sendmsg());
        assert!(k.is_untouched());
    }
    let mut k = kernel();
    k.args[0] = None;
    k.args[1] = None;
    k.run(netmon_tcp_sendmsg());
    k.run(netmon_udp_sendmsg());
    assert!(k.is_untouched());
}

#[test]
fn datagram_without_destination_is_not_recorded() {
    let mut k = kernel();
    k.memory.insert(0x2000, 0);
    k.run(netmon_udp_sendmsg());
    assert!(k.is_untouched());
    let mut k = kernel();
    k.memory.insert(0x3004, 0);
    k.run(netmon_udp_sendmsg());
    assert!(k.is_untouched());
}

#[test]
fn key_holds_the_address_in_its_last_bytes() {
    let key = make_ipv4_key(9, 0x0201_A8C0, 22);
    assert_eq!(key.remote_ip, [0, 0, 0, 0, 0, 0, 0, 0, 0, 0, 0, 0, 192, 168, 1, 2]);
    assert_eq!((key.pid, key.remote_port, key.af, key._pad), (9, 22, 2, 0));
    assert_eq!(key.remote_addr(), IpAddr::V4([192, 168, 1, 2]));
}

#[test]
fn sockaddr_needs_both_reads() {
    assert_eq!(read_sockaddr_in(Some(0x3500), Some(5)), (5, 53));
    assert_eq!(read_sockaddr_in(None, Some(5)), (0, 0));
    assert_eq!(read_sockaddr_in(Some(0x3500), None), (0, 0));
}

#[test]
fn new_keys_are_inserted_and_known_ones_counted() {
    let first = match update_totals(None, 10, Direction::Rx, &[b'a'; 16]) {
        TotalsUpdate::Insert(v) => v,
        TotalsUpdate::Count(_, _) => panic!("a new key has no counter"),
    };
    assert_eq!((first.rx_bytes, first.tx_bytes, first.comm), (10, 0, [b'a'; 16]));
    match update_totals(None, 6, Direction::Tx, &[b'c'; 16]) {
        TotalsUpdate::Insert(v) => assert_eq!((v.rx_bytes, v.tx_bytes), (0, 6)),
        TotalsUpdate::Count(_, _) => panic!("a new key has no counter"),
    }
    match update_totals(Some(first), 5, Direction::Tx, &[b'b'; 16]) {
        TotalsUpdate::Count(dir, bytes) => {
            assert_eq!(dir, Direction::Tx);
            assert_eq!(bytes, 5);
        }
        TotalsUpdate::Insert(_) => panic!("a known key keeps its totals"),
    }
}

#[test]
fn replies_that_do_not_fit_are_not_accepted() {
    let state = netmon_tcp_sendmsg();
    assert!(!state.accepts(&ProbeReply::Done));
    let sock = ProbeState::SockAddr { bytes: 1, pid: 1, sk: u64::MAX };
    assert!(sock.accepts(&ProbeReply::U32(None)));
    assert!(!sock.accepts(&ProbeReply::U32(Some(1))));
    let name = ProbeState::MsgName { path: ProbePath::UdpSend, bytes: 1, pid: 1, msg: 0 };
    assert!(!name.accepts(&ProbeReply::U64(Some(u64::MAX))));
    assert!(name.accepts(&ProbeReply::U64(Some(u64::MAX - 2))));
    let name6 = ProbeState::Sin6Family { bytes: 1, pid: 1, name: u64::MAX };
    assert!(!name6.accepts(&ProbeReply::U16(Some(10))));
    assert!(name6.accepts(&ProbeReply::U16(Some(2))));
    let port6 = ProbeState::Sin6Port { bytes: 1, pid: 1, name: u64::MAX - 7 };
    assert!(!port6.accepts(&ProbeReply::U16(Some(1))));
    assert!(port6.accepts(&ProbeReply::U16(None)));
    assert!(!ProbeState::Finished.accepts(&ProbeReply::Done));
}
