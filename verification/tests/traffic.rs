//! The records of the ring buffer and of the totals map.

use std::collections::hash_map::DefaultHasher;
use std::hash::{Hash, Hasher};

use netmon::flow::{bytes_equal, FlowKey, IpAddr};
use netmon::traffic::{
    ip4_bytes, Direction, TrafficEvent, TrafficKey, TrafficValue, AF_INET, AF_INET6, EVENT_SIZE,
};

fn event() -> TrafficEvent {
    let mut dst_ip6 = [0u8; 16];
    dst_ip6[0] = 0x20;
    dst_ip6[15] = 0x01;
    TrafficEvent {
        pid: 0x0102_0304,
        bytes: 1500,
        src_ip4: 7,
        dst_ip4: u32::from_ne_bytes([127, 0, 0, 1]),
        src_ip6: [9; 16],
        dst_ip6,
        src_port: 0x1234,
        dst_port: 443,
        direction: 1,
        af: 2,
        _pad: [5, 6],
    }
}

fn key(af: u8) -> TrafficKey {
    TrafficKey {
        pid: 42,
        remote_ip: [0, 1, 2, 3, 4, 5, 6, 7, 8, 9, 10, 11, 12, 13, 14, 15],
        remote_port: 80,
        af,
        _pad: 0,
    }
}

fn value(name: &[u8]) -> TrafficValue {
    let mut v = TrafficValue::default();
    for (i, b) in name.iter().enumerate() {
        v.comm[i] = *b;
    }
    v
}

fn hash_of(key: &TrafficKey) -> u64 {
    let mut h = DefaultHasher::new();
    key.hash(&mut h);
    h.finish()
}

#[test]
fn direction_codes() {
    assert_eq!(Direction::Rx.to_code(), 0);
    assert_eq!(Direction::Tx.to_code(), 1);
    assert_eq!(AF_INET, 2);
    assert_eq!(AF_INET6, 10);
}

#[test]
fn event_bytes_are_in_field_order() {
    let b = event().to_bytes();
    assert_eq!(b.len(), EVENT_SIZE);
    assert_eq!(b.len(), 56);
    assert_eq!(&b[0..4], &[4, 3, 2, 1]);
    assert_eq!(&b[4..8], &[0xDC, 0x05, 0, 0]);
    assert_eq!(&b[12..16], &[0x7F, 0, 0, 1]);
    assert_eq!(b[16], 9);
    assert_eq!(b[32], 0x20);
    assert_eq!(b[47], 0x01);
    assert_eq!(&b[48..52], &[0x34, 0x12, 0xBB, 0x01]);
    assert_eq!(&b[52..56], &[1, 2, 5, 6]);
}

#[test]
fn event_is_read_back_as_written() {
    let ev = event();
    let back = TrafficEvent::from_bytes(&ev.to_bytes()).unwrap();
    assert_eq!(back.pid, ev.pid);
    assert_eq!(back.bytes, ev.bytes);
    assert_eq!(back.src_ip4, ev.src_ip4);
    assert_eq!(back.dst_ip4, ev.dst_ip4);
    assert_eq!(back.src_ip6, ev.src_ip6);
    assert_eq!(back.dst_ip6, ev.dst_ip6);
    assert_eq!(back.src_port, ev.src_port);
    assert_eq!(back.dst_port, ev.dst_port);
    assert_eq!(back.direction, ev.direction);
    assert_eq!(back.af, ev.af);
    assert_eq!(back._pad, ev._pad);
}

#[test]
fn records_of_another_size_are_no_events() {
    assert!(TrafficEvent::from_bytes(&[]).is_none());
    assert!(TrafficEvent::from_bytes(&[0; 48]).is_none());
    assert!(TrafficEvent::from_bytes(&[0; 55]).is_none());
    assert!(TrafficEvent::from_bytes(&[0; 57]).is_none());
    assert!(TrafficEvent::from_bytes(&[0; 56]).is_some());
}

#[test]
fn event_flow_by_family() {
    let mut ev = event();
    let v4 = FlowKey {
        pid: 0x0102_0304,
        remote_addr: IpAddr::V4([127, 0, 0, 1]),
        remote_port: 443,
    };
    assert_eq!(ev.flow_key(), v4);
    ev.af = 10;
    assert_eq!(ev.flow_key().remote_addr, IpAddr::V6(ev.dst_ip6));
}

#[test]
fn remote_addr_by_family() {
    assert_eq!(key(2).remote_addr(), IpAddr::V4([12, 13, 14, 15]));
    assert_eq!(key(10).remote_addr(), IpAddr::V6(key(10).remote_ip));
    assert_eq!(key(0).remote_addr(), IpAddr::V6(key(0).remote_ip));
    assert_eq!(key(2).flow_key().pid, 42);
    assert_eq!(key(2).flow_key().remote_port, 80);
}

#[test]
fn address_octets_lie_in_memory_order() {
    assert_eq!(ip4_bytes(0x0201_A8C0), [192, 168, 1, 2]);
    assert_eq!(ip4_bytes(u32::from_ne_bytes([10, 0, 0, 1])), [10, 0, 0, 1]);
    assert_eq!(ip4_bytes(0), [0; 4]);
    assert_eq!(ip4_bytes(u32::MAX), [255; 4]);
}

#[test]
fn comm_ends_at_its_nul() {
    assert_eq!(value(b"curl").comm_str(), "curl");
    assert_eq!(value(b"").comm_str(), "");
    assert_eq!(value(b"a\0b").comm_str(), "a");
}

#[test]
fn comm_without_nul_is_taken_whole() {
    assert_eq!(value(b"0123456789abcdef").comm_str(), "0123456789abcdef");
}

#[test]
fn comm_that_is_not_utf8_is_a_question_mark() {
    assert_eq!(value(&[0xFF, 0xFE]).comm_str(), "?");
    assert_eq!(value(&[b'a', 0xC3]).comm_str(), "?");
    assert_eq!(value("\u{e9}t\u{e9}".as_bytes()).comm_str(), "\u{e9}t\u{e9}");
    assert_eq!(value(&[b'a', 0, 0xFF]).comm_str(), "a");
}

#[test]
fn default_value_counts_nothing() {
    let v = TrafficValue::default();
    assert_eq!(v.rx_bytes, 0);
    assert_eq!(v.tx_bytes, 0);
    assert_eq!(v.comm, [0; 16]);
}

#[test]
fn key_equality_is_by_all_fields() {
    assert!(key(2) == key(2));
    assert!(key(2) != key(10));
    let mut other = key(2);
    other.remote_ip[3] = 99;
    assert!(key(2) != other);
    let mut padded = key(2);
    padded._pad = 1;
    assert!(key(2) != padded);
}

#[test]
fn key_hash_leaves_the_padding_out() {
    let mut padded = key(2);
    padded._pad = 1;
    assert_eq!(hash_of(&key(2)), hash_of(&padded));
    assert_ne!(hash_of(&key(2)), hash_of(&key(10)));
    let mut moved = key(2);
    moved.remote_port = 81;
    assert_ne!(hash_of(&key(2)), hash_of(&moved));
    let mut other = key(2);
    other.remote_ip[0] = 1;
    assert_ne!(hash_of(&key(2)), hash_of(&other));
    let mut peer = key(2);
    peer.pid = 43;
    assert_ne!(hash_of(&key(2)), hash_of(&peer));
}

/// A hasher that keeps what it is fed.
#[derive(Default)]
struct Fed {
    bytes: Vec<u8>,
}

impl Hasher for Fed {
    fn finish(&self) -> u64 {
        0
    }

    fn write(&mut self, bytes: &[u8]) {
        self.bytes.extend_from_slice(bytes);
    }
}

#[test]
fn key_feeds_its_fields_in_order() {
    let mut padded = key(2);
    padded._pad = 7;
    let mut by_key = Fed::default();
    padded.hash(&mut by_key);
    let mut by_field = Fed::default();
    42u32.hash(&mut by_field);
    padded.remote_ip.hash(&mut by_field);
    80u16.hash(&mut by_field);
    2u8.hash(&mut by_field);
    assert!(!by_key.bytes.is_empty());
    assert_eq!(by_key.bytes, by_field.bytes);
}

#[test]
fn byte_strings_compare() {
    assert!(bytes_equal(&[1, 2], &[1, 2]));
    assert!(!bytes_equal(&[1, 2], &[1, 3]));
    assert!(!bytes_equal(&[1, 2], &[1]));
    assert!(bytes_equal(&[], &[]));
}
