//! The records that the kernel side and the user side exchange.
//!
//! An event travels through the ring buffer as fifty-six bytes: the fields in
//! the order of their declaration, without gaps, numbers little-endian.

use vstd::prelude::*;
use vstd::slice::slice_subrange;
use vstd::utf8::*;

use crate::flow::{bytes_equal, FlowKey, IpAddr};

verus! {

/// Address family of IPv4.
pub const AF_INET: u8 = 2;

/// Address family of IPv6.
pub const AF_INET6: u8 = 10;

/// Direction code of inbound traffic.
pub const DIRECTION_RX: u8 = 0;

/// Direction code of outbound traffic.
pub const DIRECTION_TX: u8 = 1;

/// How many bytes an event takes in the ring buffer.
pub const EVENT_SIZE: usize = 56;

/// How many bytes a process name takes, its NUL included.
pub const COMM_SIZE: usize = 16;

/// Direction of a traffic event.
#[derive(Clone, Copy, Debug, PartialEq, Eq, Structural)]
pub enum Direction {
    Rx,
    Tx,
}

/// Raw event written into the ring buffer by the kernel side and consumed by
/// the user side.
#[derive(Clone, Copy, Debug)]
pub struct TrafficEvent {
    /// PID of the process that triggered the syscall.
    pub pid: u32,
    /// Number of bytes sent or received in this call.
    pub bytes: u32,
    /// IPv4 source address (network byte order), 0 for IPv6.
    pub src_ip4: u32,
    /// IPv4 destination address (network byte order), 0 for IPv6.
    pub dst_ip4: u32,
    /// IPv6 source address (16 bytes), zeroed for IPv4.
    pub src_ip6: [u8; 16],
    /// IPv6 destination address (16 bytes), zeroed for IPv4.
    pub dst_ip6: [u8; 16],
    /// Source port (host byte order).
    pub src_port: u16,
    /// Destination port (host byte order).
    pub dst_port: u16,
    /// Direction: 0 = Rx (inbound), 1 = Tx (outbound).
    pub direction: u8,
    /// Address family: 2 = AF_INET, 10 = AF_INET6.
    pub af: u8,
    pub _pad: [u8; 2],
}

/// Key of the running totals: one process and one remote address and port.
#[derive(Clone, Copy, Debug, Eq)]
pub struct TrafficKey {
    pub pid: u32,
    /// For AF_INET: last 4 bytes hold the IPv4 address, rest zeroed.
    /// For AF_INET6: full 16-byte address.
    pub remote_ip: [u8; 16],
    pub remote_port: u16,
    pub af: u8,
    pub _pad: u8,
}

/// Running byte totals of one key.
#[derive(Clone, Copy, Debug)]
pub struct TrafficValue {
    pub rx_bytes: u64,
    pub tx_bytes: u64,
    /// Process name (comm), null-terminated, max 15 chars + NUL.
    pub comm: [u8; 16],
}

/// The octets of an IPv4 address that a number holds in network byte order: the
/// bytes of the number as they lie in memory, the least significant first.
pub open spec fn ip4_octets(ip: u32) -> [u8; 4] {
    [
        (ip % 0x100) as u8,
        (ip / 0x100 % 0x100) as u8,
        (ip / 0x1_0000 % 0x100) as u8,
        (ip / 0x100_0000) as u8,
    ]
}

/// The bytes of a number, the least significant first.
pub open spec fn le32(x: u32) -> Seq<u8> {
    seq![
        (x % 0x100) as u8,
        (x / 0x100 % 0x100) as u8,
        (x / 0x1_0000 % 0x100) as u8,
        (x / 0x100_0000) as u8,
    ]
}

/// The bytes of a number, the least significant first.
pub open spec fn le16(x: u16) -> Seq<u8> {
    seq![(x % 0x100) as u8, (x / 0x100) as u8]
}

/// The octets of an IPv4 address in network byte order.
pub fn ip4_bytes(ip: u32) -> (b: [u8; 4])
    ensures
        b == ip4_octets(ip),
{
    let b: [u8; 4] = [
        (ip % 0x100) as u8,
        (ip / 0x100 % 0x100) as u8,
        (ip / 0x1_0000 % 0x100) as u8,
        (ip / 0x100_0000) as u8,
    ];
    assert(b =~= ip4_octets(ip));
    b
}

fn le32_number(b0: u8, b1: u8, b2: u8, b3: u8) -> (x: u32)
    ensures
        le32(x) == seq![b0, b1, b2, b3],
{
    let x: u32 = b0 as u32 + b1 as u32 * 0x100 + b2 as u32 * 0x1_0000 + b3 as u32 * 0x100_0000;
    proof {
        let q1: int = b1 + b2 * 0x100 + b3 * 0x1_0000;
        let q2: int = b2 + b3 * 0x100;
        assert(x % 0x100 == b0 && x / 0x100 == q1);
        assert(q1 % 0x100 == b1);
        assert(x / 0x1_0000 == q2);
        assert(q2 % 0x100 == b2);
        assert(x / 0x100_0000 == b3);
        assert(le32(x) =~= seq![b0, b1, b2, b3]);
    }
    x
}

fn le16_number(b0: u8, b1: u8) -> (x: u16)
    ensures
        le16(x) == seq![b0, b1],
{
    let x: u16 = b0 as u16 + b1 as u16 * 0x100;
    assert(le16(x) =~= seq![b0, b1]);
    x
}

/// The address that a sixteen-byte field holds in the given family.
pub open spec fn stored_addr(af: u8, ip: [u8; 16]) -> IpAddr {
    if af == AF_INET {
        IpAddr::V4([ip[12], ip[13], ip[14], ip[15]])
    } else {
        IpAddr::V6(ip)
    }
}

impl Direction {
    pub open spec fn code(self) -> u8 {
        match self {
            Direction::Rx => DIRECTION_RX,
            Direction::Tx => DIRECTION_TX,
        }
    }

    /// The number by which an event names the direction.
    pub fn to_code(self) -> (c: u8)
        ensures
            c == self.code(),
    {
        match self {
            Direction::Rx => DIRECTION_RX,
            Direction::Tx => DIRECTION_TX,
        }
    }
}

impl TrafficEvent {
    /// The event as it lies in the ring buffer.
    pub open spec fn layout(self) -> Seq<u8> {
        le32(self.pid) + le32(self.bytes) + le32(self.src_ip4) + le32(self.dst_ip4) + self.src_ip6@
            + self.dst_ip6@ + le16(self.src_port) + le16(self.dst_port) + seq![
            self.direction,
            self.af,
        ] + self._pad@
    }

    /// The remote end of the event.
    pub open spec fn spec_remote_addr(self) -> IpAddr {
        if self.af == AF_INET {
            IpAddr::V4(ip4_octets(self.dst_ip4))
        } else {
            IpAddr::V6(self.dst_ip6)
        }
    }

    /// The flow that the event belongs to.
    pub open spec fn flow(self) -> FlowKey {
        FlowKey {
            pid: self.pid,
            remote_addr: self.spec_remote_addr(),
            remote_port: self.dst_port,
        }
    }

    /// Whether the event counts as outbound.
    pub open spec fn is_tx(self) -> bool {
        self.direction == DIRECTION_TX
    }

    pub fn flow_key(&self) -> (k: FlowKey)
        ensures
            k == self.flow(),
    {
        let remote_addr = if self.af == AF_INET {
            IpAddr::V4(ip4_bytes(self.dst_ip4))
        } else {
            IpAddr::V6(self.dst_ip6)
        };
        FlowKey { pid: self.pid, remote_addr, remote_port: self.dst_port }
    }

    /// Writes the event as it lies in the ring buffer.
    pub fn to_bytes(&self) -> (record: [u8; 56])
        ensures
            record@ == self.layout(),
    {
        let pid = self.pid;
        let n = self.bytes;
        let src = self.src_ip4;
        let dst = self.dst_ip4;
        let s = self.src_ip6;
        let d = self.dst_ip6;
        let sp = self.src_port;
        let dp = self.dst_port;
        let record: [u8; 56] = [
            (pid % 0x100) as u8,
            (pid / 0x100 % 0x100) as u8,
            (pid / 0x1_0000 % 0x100) as u8,
            (pid / 0x100_0000) as u8,
            (n % 0x100) as u8,
            (n / 0x100 % 0x100) as u8,
            (n / 0x1_0000 % 0x100) as u8,
            (n / 0x100_0000) as u8,
            (src % 0x100) as u8,
            (src / 0x100 % 0x100) as u8,
            (src / 0x1_0000 % 0x100) as u8,
            (src / 0x100_0000) as u8,
            (dst % 0x100) as u8,
            (dst / 0x100 % 0x100) as u8,
            (dst / 0x1_0000 % 0x100) as u8,
            (dst / 0x100_0000) as u8,
            s[0], s[1], s[2], s[3], s[4], s[5], s[6], s[7],
            s[8], s[9], s[10], s[11], s[12], s[13], s[14], s[15],
            d[0], d[1], d[2], d[3], d[4], d[5], d[6], d[7],
            d[8], d[9], d[10], d[11], d[12], d[13], d[14], d[15],
            (sp % 0x100) as u8,
            (sp / 0x100) as u8,
            (dp % 0x100) as u8,
            (dp / 0x100) as u8,
            self.direction,
            self.af,
            self._pad[0],
            self._pad[1],
        ];
        assert(record@ =~= self.layout());
        record
    }

    /// Reads an event back from a ring buffer record; a record of any other
    /// size is no event.
    pub fn from_bytes(record: &[u8]) -> (r: Option<TrafficEvent>)
        ensures
            match r {
                Some(ev) => record@ == ev.layout(),
                None => record@.len() != EVENT_SIZE,
            },
            r is Some <==> record@.len() == EVENT_SIZE,
    {
        if record.len() != EVENT_SIZE {
            return None;
        }
        let b = record;
        let ev = TrafficEvent {
            pid: le32_number(b[0], b[1], b[2], b[3]),
            bytes: le32_number(b[4], b[5], b[6], b[7]),
            src_ip4: le32_number(b[8], b[9], b[10], b[11]),
            dst_ip4: le32_number(b[12], b[13], b[14], b[15]),
            src_ip6: [
                b[16], b[17], b[18], b[19], b[20], b[21], b[22], b[23],
                b[24], b[25], b[26], b[27], b[28], b[29], b[30], b[31],
            ],
            dst_ip6: [
                b[32], b[33], b[34], b[35], b[36], b[37], b[38], b[39],
                b[40], b[41], b[42], b[43], b[44], b[45], b[46], b[47],
            ],
            src_port: le16_number(b[48], b[49]),
            dst_port: le16_number(b[50], b[51]),
            direction: b[52],
            af: b[53],
            _pad: [b[54], b[55]],
        };
        assert(record@ =~= ev.layout());
        Some(ev)
    }
}

impl TrafficKey {
    pub open spec fn flow(self) -> FlowKey {
        FlowKey {
            pid: self.pid,
            remote_addr: stored_addr(self.af, self.remote_ip),
            remote_port: self.remote_port,
        }
    }

    /// Decode the remote IP.
    pub fn remote_addr(&self) -> (addr: IpAddr)
        ensures
            addr == stored_addr(self.af, self.remote_ip),
    {
        if self.af == AF_INET {
            let b = self.remote_ip;
            let v4: [u8; 4] = [b[12], b[13], b[14], b[15]];
            assert(v4 =~= [b@[12], b@[13], b@[14], b@[15]]);
            IpAddr::V4(v4)
        } else {
            IpAddr::V6(self.remote_ip)
        }
    }

    pub fn flow_key(&self) -> (k: FlowKey)
        ensures
            k == self.flow(),
    {
        FlowKey { pid: self.pid, remote_addr: self.remote_addr(), remote_port: self.remote_port }
    }
}

/// `Hash::hash` of `u32`, which feeds the number to the hasher. What that makes of
/// the hasher's state is the hasher's own: nothing is claimed of it. The four
/// feeders are public because the contract of hashing a key names them.
#[verifier::external_body]
pub fn feed_u32<H: core::hash::Hasher>(x: &u32, state: &mut H) {
    core::hash::Hash::hash(x, state)
}

/// `Hash::hash` of `u16`, of which nothing is claimed either.
#[verifier::external_body]
pub fn feed_u16<H: core::hash::Hasher>(x: &u16, state: &mut H) {
    core::hash::Hash::hash(x, state)
}

/// `Hash::hash` of `u8`, of which nothing is claimed either.
#[verifier::external_body]
pub fn feed_u8<H: core::hash::Hasher>(x: &u8, state: &mut H) {
    core::hash::Hash::hash(x, state)
}

/// `Hash::hash` of an array of sixteen bytes, of which nothing is claimed either.
#[verifier::external_body]
pub fn feed_addr<H: core::hash::Hasher>(x: &[u8; 16], state: &mut H) {
    core::hash::Hash::hash(x, state)
}

impl core::hash::Hash for TrafficKey {
    /// Feeds the fields that identify a key to the hasher: the process id, the
    /// address, the port and the family, in this order, and nothing else. The
    /// padding is left out, so keys that agree in these fields hash alike.
    fn hash<H: core::hash::Hasher>(&self, state: &mut H)
        ensures
            exists|a: &mut H, b: &mut H, c: &mut H, d: &mut H|
                {
                    &&& #[trigger] call_ensures(feed_u32::<H>, (&self.pid, a), ())
                    &&& #[trigger] call_ensures(feed_addr::<H>, (&self.remote_ip, b), ())
                    &&& #[trigger] call_ensures(feed_u16::<H>, (&self.remote_port, c), ())
                    &&& #[trigger] call_ensures(feed_u8::<H>, (&self.af, d), ())
                    &&& *a == *old(state)
                    &&& *final(a) == *b
                    &&& *final(b) == *c
                    &&& *final(c) == *d
                    &&& *final(d) == *final(state)
                },
    {
        feed_u32(&self.pid, state);
        feed_addr(&self.remote_ip, state);
        feed_u16(&self.remote_port, state);
        feed_u8(&self.af, state);
    }
}

impl PartialEq for TrafficKey {
    fn eq(&self, other: &TrafficKey) -> (r: bool) {
        let same_ip = bytes_equal(self.remote_ip.as_slice(), other.remote_ip.as_slice());
        assert(same_ip ==> self.remote_ip =~= other.remote_ip);
        self.pid == other.pid && same_ip && self.remote_port == other.remote_port && self.af
            == other.af && self._pad == other._pad
    }
}

impl vstd::std_specs::cmp::PartialEqSpecImpl for TrafficKey {
    open spec fn obeys_eq_spec() -> bool {
        true
    }

    open spec fn eq_spec(&self, other: &TrafficKey) -> bool {
        *self == *other
    }
}

/// The bytes of a process name up to its first NUL.
pub open spec fn comm_bytes(comm: Seq<u8>) -> Seq<u8> {
    match comm.index_of_first(0u8) {
        Some(end) => comm.take(end),
        None => comm,
    }
}

/// The text of a process name: what stands before its first NUL, or a question
/// mark where that is not UTF-8.
pub open spec fn comm_text(comm: Seq<u8>) -> Seq<char> {
    if valid_utf8(comm_bytes(comm)) {
        decode_utf8(comm_bytes(comm))
    } else {
        "?"@
    }
}

/// Calls `core::str::from_utf8`, which hands the bytes back as text if and only
/// if they are valid UTF-8.
#[verifier::external_body]
fn utf8_text(bytes: &[u8]) -> (r: Option<&str>)
    ensures
        match r {
            Some(text) => valid_utf8(bytes@) && text@ == decode_utf8(bytes@),
            None => !valid_utf8(bytes@),
        },
{
    core::str::from_utf8(bytes).ok()
}

impl TrafficValue {
    /// Decode comm as a UTF-8 string, trimming the NUL terminator.
    pub fn comm_str(&self) -> (text: &str)
        ensures
            text@ == comm_text(self.comm@),
    {
        let mut end: usize = 0;
        while end < COMM_SIZE && self.comm[end] != 0
            invariant
                end <= COMM_SIZE,
                forall|j: int| 0 <= j < end ==> self.comm@[j] != 0,
            decreases COMM_SIZE - end,
        {
            end += 1;
        }
        let text = slice_subrange(self.comm.as_slice(), 0, end);
        proof {
            self.comm@.index_of_first_ensures(0u8);
            if end == COMM_SIZE {
                assert(!self.comm@.contains(0u8));
            } else {
                assert(self.comm@[end as int] == 0u8);
                assert(self.comm@.contains(0u8));
            }
            assert(text@ =~= comm_bytes(self.comm@));
        }
        match utf8_text(text) {
            Some(text) => text,
            None => "?",
        }
    }
}

impl Default for TrafficValue {
    fn default() -> (v: TrafficValue)
        ensures
            v.rx_bytes == 0,
            v.tx_bytes == 0,
            v.comm@ == Seq::new(16, |i: int| 0u8),
    {
        let v = TrafficValue { rx_bytes: 0, tx_bytes: 0, comm: [0; 16] };
        assert(v.comm@ =~= Seq::new(16, |i: int| 0u8));
        v
    }
}

proof fn lemma_le32_injective(x: u32, y: u32)
    requires
        le32(x) == le32(y),
    ensures
        x == y,
{
    let a = le32(x);
    let b = le32(y);
    assert(a[0] == b[0] && a[1] == b[1] && a[2] == b[2] && a[3] == b[3]);
}

proof fn lemma_le16_injective(x: u16, y: u16)
    requires
        le16(x) == le16(y),
    ensures
        x == y,
{
    let a = le16(x);
    let b = le16(y);
    assert(a[0] == b[0] && a[1] == b[1]);
}

/// Where each field lies in a record.
proof fn lemma_layout_fields(ev: TrafficEvent)
    ensures
        ev.layout().len() == EVENT_SIZE,
        ev.layout().subrange(0, 4) == le32(ev.pid),
        ev.layout().subrange(4, 8) == le32(ev.bytes),
        ev.layout().subrange(8, 12) == le32(ev.src_ip4),
        ev.layout().subrange(12, 16) == le32(ev.dst_ip4),
        ev.layout().subrange(16, 32) == ev.src_ip6@,
        ev.layout().subrange(32, 48) == ev.dst_ip6@,
        ev.layout().subrange(48, 50) == le16(ev.src_port),
        ev.layout().subrange(50, 52) == le16(ev.dst_port),
        ev.layout()[52] == ev.direction,
        ev.layout()[53] == ev.af,
        ev.layout().subrange(54, 56) == ev._pad@,
{
    assert(ev.layout().subrange(0, 4) =~= le32(ev.pid));
    assert(ev.layout().subrange(4, 8) =~= le32(ev.bytes));
    assert(ev.layout().subrange(8, 12) =~= le32(ev.src_ip4));
    assert(ev.layout().subrange(12, 16) =~= le32(ev.dst_ip4));
    assert(ev.layout().subrange(16, 32) =~= ev.src_ip6@);
    assert(ev.layout().subrange(32, 48) =~= ev.dst_ip6@);
    assert(ev.layout().subrange(48, 50) =~= le16(ev.src_port));
    assert(ev.layout().subrange(50, 52) =~= le16(ev.dst_port));
    assert(ev.layout().subrange(54, 56) =~= ev._pad@);
}

/// The ring buffer loses nothing: events that lie there as the same bytes are
/// the same event, so what is read from a record is what was written to it.
pub proof fn law_layout_determines_event(a: TrafficEvent, b: TrafficEvent)
    requires
        a.layout() == b.layout(),
    ensures
        a == b,
{
    lemma_layout_fields(a);
    lemma_layout_fields(b);
    lemma_le32_injective(a.pid, b.pid);
    lemma_le32_injective(a.bytes, b.bytes);
    lemma_le32_injective(a.src_ip4, b.src_ip4);
    lemma_le32_injective(a.dst_ip4, b.dst_ip4);
    lemma_le16_injective(a.src_port, b.src_port);
    lemma_le16_injective(a.dst_port, b.dst_port);
    assert(a.src_ip6 =~= b.src_ip6);
    assert(a.dst_ip6 =~= b.dst_ip6);
    assert(a._pad =~= b._pad);
}

/// The octets of an address in network byte order are the bytes that an event
/// holds it as in the ring buffer.
pub proof fn law_address_octets_lie_in_memory_order(ev: TrafficEvent)
    ensures
        ip4_octets(ev.dst_ip4)@ == ev.layout().subrange(12, 16),
{
    lemma_layout_fields(ev);
    assert(ip4_octets(ev.dst_ip4)@ =~= le32(ev.dst_ip4));
}

/// What is read from a record is the event that was written to it.
pub proof fn law_read_gives_back_written_event(
    written: TrafficEvent,
    record: Seq<u8>,
    read: Option<TrafficEvent>,
)
    requires
        record == written.layout(),
        match read {
            Some(ev) => record == ev.layout(),
            None => record.len() != EVENT_SIZE,
        },
    ensures
        read == Some(written),
{
    lemma_layout_fields(written);
    if let Some(ev) = read {
        law_layout_determines_event(ev, written);
    }
}

/// The number that four bytes of a record give, the least significant first, is
/// the one that they were made of.
proof fn lemma_le32_value(x: u32)
    ensures
        le32(x).len() == 4,
        x == le32(x)[0] + 0x100 * le32(x)[1] + 0x1_0000 * le32(x)[2] + 0x100_0000 * le32(x)[3],
{
    let q1 = x / 0x100;
    let q2 = x / 0x1_0000;
    assert(q2 == q1 / 0x100);
    assert(x / 0x100_0000 == q2 / 0x100);
}

/// A record is read field by field: each number is what its bytes give in
/// little-endian order, at the offset that the declaration of the fields gives
/// it, and each address lies there byte by byte. This holds of any event that a
/// record is read as, and of any record that an event is written as.
pub proof fn law_record_fields_lie_at_their_offsets(ev: TrafficEvent, record: Seq<u8>)
    requires
        record == ev.layout(),
    ensures
        record.len() == 56,
        ev.pid == record[0] + 0x100 * record[1] + 0x1_0000 * record[2] + 0x100_0000 * record[3],
        ev.bytes == record[4] + 0x100 * record[5] + 0x1_0000 * record[6] + 0x100_0000 * record[7],
        ev.src_ip4 == record[8] + 0x100 * record[9] + 0x1_0000 * record[10] + 0x100_0000
            * record[11],
        ev.dst_ip4 == record[12] + 0x100 * record[13] + 0x1_0000 * record[14] + 0x100_0000
            * record[15],
        forall|i: int| 0 <= i < 16 ==> #[trigger] ev.src_ip6@[i] == record[16 + i],
        forall|i: int| 0 <= i < 16 ==> #[trigger] ev.dst_ip6@[i] == record[32 + i],
        ev.src_port == record[48] + 0x100 * record[49],
        ev.dst_port == record[50] + 0x100 * record[51],
        ev.direction == record[52],
        ev.af == record[53],
        ev._pad@[0] == record[54],
        ev._pad@[1] == record[55],
{
    lemma_layout_fields(ev);
    lemma_le32_value(ev.pid);
    lemma_le32_value(ev.bytes);
    lemma_le32_value(ev.src_ip4);
    lemma_le32_value(ev.dst_ip4);
    assert forall|i: int| 0 <= i < 4 implies record[i] == #[trigger] le32(ev.pid)[i]
        && record[4 + i] == le32(ev.bytes)[i] && record[8 + i] == le32(ev.src_ip4)[i] && record[12
        + i] == le32(ev.dst_ip4)[i] by {
        assert(record.subrange(0, 4)[i] == record[i]);
        assert(record.subrange(4, 8)[i] == record[4 + i]);
        assert(record.subrange(8, 12)[i] == record[8 + i]);
        assert(record.subrange(12, 16)[i] == record[12 + i]);
    }
    assert forall|i: int| 0 <= i < 16 implies #[trigger] ev.src_ip6@[i] == record[16 + i] by {
        assert(record.subrange(16, 32)[i] == record[16 + i]);
    }
    assert forall|i: int| 0 <= i < 16 implies #[trigger] ev.dst_ip6@[i] == record[32 + i] by {
        assert(record.subrange(32, 48)[i] == record[32 + i]);
    }
    assert forall|i: int| 0 <= i < 2 implies record[48 + i] == #[trigger] le16(ev.src_port)[i]
        && record[50 + i] == le16(ev.dst_port)[i] && record[54 + i] == ev._pad@[i] by {
        assert(record.subrange(48, 50)[i] == record[48 + i]);
        assert(record.subrange(50, 52)[i] == record[50 + i]);
        assert(record.subrange(54, 56)[i] == record[54 + i]);
    }
    assert(record[0] == le32(ev.pid)[0] && record[1] == le32(ev.pid)[1] && record[2] == le32(
        ev.pid,
    )[2] && record[3] == le32(ev.pid)[3]);
    assert(record[48] == le16(ev.src_port)[0] && record[49] == le16(ev.src_port)[1]);
}

/// The octets of an IPv4 address are those that lie in memory, first to last.
pub proof fn law_octets_make_up_the_address(ip: u32)
    ensures
        ({
            let b = ip4_octets(ip)@;
            ip == b[0] + 0x100 * b[1] + 0x1_0000 * b[2] + 0x100_0000 * b[3]
        }),
{
    lemma_le32_value(ip);
    assert(ip4_octets(ip)@ =~= le32(ip));
}

/// An event belongs to its process and the end that it names as destination: an
/// IPv4 address where its family is 2, as its octets lie in memory, else the
/// sixteen bytes of an IPv6 address.
pub proof fn law_event_belongs_to_its_destination(ev: TrafficEvent)
    ensures
        ev.flow().pid == ev.pid,
        ev.flow().remote_port == ev.dst_port,
        match ev.flow().remote_addr {
            IpAddr::V4(b) => ev.af == 2 && ev.dst_ip4 == b@[0] + 0x100 * b@[1] + 0x1_0000 * b@[2]
                + 0x100_0000 * b@[3],
            IpAddr::V6(b) => ev.af != 2 && b@ == ev.dst_ip6@,
        },
{
    law_octets_make_up_the_address(ev.dst_ip4);
}

/// A key stands for its process and the end that its address field names: the
/// last four bytes where its family is 2, else all sixteen.
pub proof fn law_key_stands_for_its_remote_end(key: TrafficKey)
    ensures
        key.flow().pid == key.pid,
        key.flow().remote_port == key.remote_port,
        match key.flow().remote_addr {
            IpAddr::V4(b) => key.af == 2 && b@ == key.remote_ip@.subrange(12, 16),
            IpAddr::V6(b) => key.af != 2 && b@ == key.remote_ip@,
        },
{
    if let IpAddr::V4(b) = key.flow().remote_addr {
        assert(b@ =~= key.remote_ip@.subrange(12, 16));
    }
}

/// A received transfer is coded 0 and a sent one 1; an event counts as outbound
/// where its code is 1, and as inbound on any other.
pub proof fn law_directions_have_their_codes(d: Direction, ev: TrafficEvent)
    ensures
        d.code() == if d == Direction::Tx {
            1u8
        } else {
            0u8
        },
        ev.is_tx() <==> ev.direction == 1,
{
}

/// Keys are equal where each of their fields is.
pub proof fn law_keys_are_equal_by_their_fields(a: TrafficKey, b: TrafficKey)
    ensures
        vstd::std_specs::cmp::PartialEqSpec::eq_spec(&a, &b) <==> (a.pid == b.pid && a.remote_ip@
            == b.remote_ip@ && a.remote_port == b.remote_port && a.af == b.af && a._pad == b._pad),
{
    if a.remote_ip@ == b.remote_ip@ {
        assert(a.remote_ip =~= b.remote_ip);
    }
}

/// A name is what stands before its first NUL, whole: the text of a name whose
/// first `n` bytes are not NUL, and which ends there or has a NUL next, is
/// written as exactly these bytes, or is a question mark where they are no text.
pub proof fn law_name_is_what_stands_before_its_nul(comm: Seq<u8>, n: int)
    requires
        0 <= n <= comm.len(),
        forall|i: int| 0 <= i < n ==> comm[i] != 0,
        n == comm.len() || comm[n] == 0,
    ensures
        valid_utf8(comm.take(n)) ==> encode_utf8(comm_text(comm)) == comm.take(n),
        !valid_utf8(comm.take(n)) ==> comm_text(comm) == "?"@,
{
    comm.index_of_first_ensures(0u8);
    if n < comm.len() {
        assert(comm.contains(0u8));
    } else {
        assert(!comm.contains(0u8));
    }
    assert(comm_bytes(comm) =~= comm.take(n));
    if valid_utf8(comm.take(n)) {
        decode_utf8_encode_utf8(comm.take(n));
    }
}

} // verus!
