//! Flows, and the map that is keyed by them.

use netmon::flow::{FlowKey, IpAddr};
use netmon::flow_map::FlowMap;

fn flow(pid: u32, last: u8, port: u16) -> FlowKey {
    FlowKey { pid, remote_addr: IpAddr::V4([10, 0, 0, last]), remote_port: port }
}

fn flow6(pid: u32, last: u8) -> FlowKey {
    let mut b = [0u8; 16];
    b[15] = last;
    FlowKey { pid, remote_addr: IpAddr::V6(b), remote_port: 1 }
}

#[test]
fn flows_are_ordered_totally() {
    let all = [
        flow(1, 1, 80),
        flow(1, 2, 80),
        flow(1, 1, 81),
        flow(2, 1, 80),
        flow6(1, 1),
        flow6(1, 2),
        flow(u32::MAX, 255, u16::MAX),
    ];
    for a in all.iter() {
        for b in all.iter() {
            if a == b {
                assert!(!a.precedes(b));
            } else {
                assert!(a.precedes(b) != b.precedes(a));
            }
        }
    }
}

#[test]
fn families_are_told_apart() {
    let mut b = [0u8; 16];
    b[12] = 10;
    b[15] = 1;
    let v6 = FlowKey { pid: 1, remote_addr: IpAddr::V6(b), remote_port: 80 };
    assert!(v6 != flow(1, 1, 80));
}

#[test]
fn get_gives_back_what_was_inserted() {
    let mut m: FlowMap<u64> = FlowMap::new();
    assert!(m.get(&flow(1, 1, 80)).is_none());
    m.insert(flow(3, 1, 80), 30);
    m.insert(flow(1, 1, 80), 10);
    m.insert(flow(2, 1, 80), 20);
    m.insert(flow(1, 1, 80), 11);
    assert_eq!(m.len(), 3);
    assert_eq!(m.get(&flow(1, 1, 80)), Some(&11));
    assert_eq!(m.get(&flow(2, 1, 80)), Some(&20));
    assert_eq!(m.get(&flow(3, 1, 80)), Some(&30));
    assert!(m.contains_key(&flow(3, 1, 80)));
    assert!(!m.contains_key(&flow(3, 2, 80)));
}

#[test]
fn walk_meets_each_flow_once() {
    let mut m: FlowMap<u64> = FlowMap::new();
    for i in [5u32, 1, 4, 2, 3] {
        m.insert(flow(i, 0, 0), i as u64);
    }
    let mut seen = vec![];
    for i in 0..m.len() {
        assert_eq!(*m.value_at(i), m.key_at(i).pid as u64);
        seen.push(m.key_at(i).pid);
    }
    assert_eq!(seen, vec![1, 2, 3, 4, 5]);
}

#[test]
fn set_at_and_pop_last() {
    let mut m: FlowMap<u64> = FlowMap::new();
    m.insert(flow(1, 0, 0), 1);
    m.insert(flow(2, 0, 0), 2);
    m.set_at(0, 7);
    assert_eq!(m.get(&flow(1, 0, 0)), Some(&7));
    assert_eq!(m.pop_last(), Some((flow(2, 0, 0), 2)));
    assert_eq!(m.pop_last(), Some((flow(1, 0, 0), 7)));
    assert!(m.pop_last().is_none());
    assert_eq!(m.len(), 0);
}
