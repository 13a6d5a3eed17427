//! The kernel probes on the TCP and UDP send and receive paths.
//!
//! A probe is a machine: its state names the next thing to do in the kernel,
//! and what came of that gives the next state, until the probe returns.
//! Addresses and offsets are those of a standard kernel of 64 bits,
//! little-endian.

use vstd::prelude::*;

use crate::capture::{lemma_probe_records_every_call, outcome, run, start_of, Kernel, MAX_ACTIONS};
use crate::flow::bytes_equal;
use crate::traffic::{
    ip4_bytes, ip4_octets, law_octets_make_up_the_address, Direction, TrafficEvent, TrafficKey,
    TrafficValue, AF_INET, AF_INET6,
};

verus! {

/// Where the destination port lies in a socket.
pub const SOCK_DPORT_OFFSET: u64 = 12;

/// Where the port lies in a socket address.
pub const SIN_PORT_OFFSET: u64 = 2;

/// Where the address lies in a socket address.
pub const SIN_ADDR_OFFSET: u64 = 4;

/// Where the address lies in an IPv6 socket address.
pub const SIN6_ADDR_OFFSET: u64 = 8;

/// The remote end of a transfer.
#[derive(Clone, Copy, Debug)]
pub enum Remote {
    /// An IPv4 address in network byte order, 0 where it is not known.
    V4(u32),
    /// The octets of an IPv6 address.
    V6([u8; 16]),
}

/// How the running totals of a key are brought up to date.
#[derive(Clone, Copy, Debug)]
pub enum TotalsUpdate {
    /// Add to one counter of a key that is known.
    Count(Direction, u64),
    /// Put down the first totals of a key, or add them where another call has
    /// put down the key meanwhile.
    Insert(TrafficValue),
}

/// The bytes of one call, as a probe puts them down.
#[derive(Clone, Copy, Debug)]
pub struct Transfer {
    pub pid: u32,
    pub bytes: u64,
    pub direction: Direction,
    pub remote: Remote,
    pub remote_port: u16,
}

/// Which path a probe watches.
#[derive(Clone, Copy, Debug, PartialEq, Eq, Structural)]
pub enum ProbePath {
    /// The destination is in the socket, the first argument.
    TcpSend,
    /// The destination is in the message header, the second argument.
    UdpSend,
    /// The same, with an IPv6 destination.
    Udp6Send,
    /// The byte count is what the function returned; the remote end is unknown.
    Receive,
}

/// What a probe wants done in the kernel.
#[derive(Clone, Copy, Debug)]
pub enum ProbeAction {
    /// Read an argument of the watched function.
    ReadArg(usize),
    /// Read what the watched function returned.
    ReadReturned,
    /// Read the process and thread ids of the current task.
    ReadTask,
    /// See whether the PID filter has any entry.
    PeekFilter,
    /// Look a PID up in the filter.
    LookupFilter(u32),
    /// Read two bytes of kernel memory.
    ReadU16(u64),
    /// Read four bytes of kernel memory.
    ReadU32(u64),
    /// Read eight bytes of kernel memory.
    ReadU64(u64),
    /// Read sixteen bytes of kernel memory.
    ReadAddr(u64),
    /// Read the name of the current task.
    ReadComm,
    /// Look up the running totals of a key.
    LookupTotals(TrafficKey),
    /// Bring the running totals of a key up to date.
    UpdateTotals(TrafficKey, TotalsUpdate),
    /// Put an event into the ring buffer.
    EmitEvent(TrafficEvent),
    /// Return from the probe.
    Return(u32),
}

/// What came of an action.
#[derive(Clone, Copy, Debug)]
pub enum ProbeReply {
    Arg(Option<u64>),
    Returned(Option<i64>),
    Task(u64),
    FilterEmpty(bool),
    Listed(bool),
    U16(Option<u16>),
    U32(Option<u32>),
    U64(Option<u64>),
    Addr(Option<[u8; 16]>),
    Comm([u8; 16]),
    Totals(Option<TrafficValue>),
    Done,
}

/// What a probe is about to do, with what it knows so far.
#[derive(Clone, Copy, Debug)]
pub enum ProbeState {
    /// Read how many bytes are to be sent.
    Size { path: ProbePath },
    /// Read how many bytes were received.
    Returned,
    /// Read who is at work.
    Task { path: ProbePath, bytes: u64 },
    /// See whether the PID filter is empty.
    Filter { path: ProbePath, bytes: u64, pid: u32 },
    /// See whether the PID filter lists the process.
    Listed { path: ProbePath, bytes: u64, pid: u32 },
    /// Read the socket pointer.
    Sock { bytes: u64, pid: u32 },
    /// Read the destination address from the socket.
    SockAddr { bytes: u64, pid: u32, sk: u64 },
    /// Read the destination port from the socket.
    SockPort { bytes: u64, pid: u32, sk: u64, ip: u32 },
    /// Read the message header pointer.
    Msg { path: ProbePath, bytes: u64, pid: u32 },
    /// Read the socket address pointer from the message header.
    MsgName { path: ProbePath, bytes: u64, pid: u32, msg: u64 },
    /// Read the port from the socket address.
    SinPort { bytes: u64, pid: u32, name: u64 },
    /// Read the address from the socket address.
    SinAddr { bytes: u64, pid: u32, name: u64, port_be: u16 },
    /// Read the family from the IPv6 socket address.
    Sin6Family { bytes: u64, pid: u32, name: u64 },
    /// Read the port from the IPv6 socket address.
    Sin6Port { bytes: u64, pid: u32, name: u64 },
    /// Read the address from the IPv6 socket address.
    Sin6Addr { bytes: u64, pid: u32, name: u64, port_be: u16 },
    /// Read the name of the process.
    Comm { transfer: Transfer },
    /// Look up the totals so far.
    Totals { transfer: Transfer, comm: [u8; 16] },
    /// Bring the totals up to date.
    Update { transfer: Transfer, update: TotalsUpdate },
    /// Emit the event.
    Emit { transfer: Transfer },
    /// Return.
    Finished,
}

/// Sixteen zero bytes.
pub open spec fn zero_address() -> [u8; 16] {
    [0, 0, 0, 0, 0, 0, 0, 0, 0, 0, 0, 0, 0, 0, 0, 0]
}

/// The low thirty-two bits of a number.
pub open spec fn low32(n: u64) -> u32 {
    (n % 0x1_0000_0000) as u32
}

/// The process id in what the kernel gives for the current task.
pub open spec fn task_pid(pid_tgid: u64) -> u32 {
    (pid_tgid / 0x1_0000_0000) as u32
}

/// A port read from memory in network byte order, as a number.
pub open spec fn port_from_be(port_be: u16) -> u16 {
    ((port_be % 0x100) * 0x100 + port_be / 0x100) as u16
}

/// The key under which the bytes sent to an IPv4 address are totalled: the last
/// four bytes of the address field hold the address, the rest is zero.
pub open spec fn ipv4_key(pid: u32, ip: u32, port: u16) -> TrafficKey {
    let b = ip4_octets(ip);
    TrafficKey {
        pid,
        remote_ip: [0, 0, 0, 0, 0, 0, 0, 0, 0, 0, 0, 0, b[0], b[1], b[2], b[3]],
        remote_port: port,
        af: AF_INET,
        _pad: 0,
    }
}

/// The key under which the bytes sent to an IPv6 address are totalled.
pub open spec fn ipv6_key(pid: u32, ip: [u8; 16], port: u16) -> TrafficKey {
    TrafficKey { pid, remote_ip: ip, remote_port: port, af: AF_INET6, _pad: 0 }
}

/// Whether an IPv6 address stands for an IPv4 address.
pub open spec fn is_v4_mapped(ip: [u8; 16]) -> bool {
    &&& forall|i: int| 0 <= i < 10 ==> #[trigger] ip@[i] == 0
    &&& ip@[10] == 0xFF
    &&& ip@[11] == 0xFF
}

/// Whether a datagram to an IPv6 address goes out as IPv6: not where there is no
/// address, nor where it stands for an IPv4 address, since the kernel hands such
/// a datagram on to the IPv4 path.
pub open spec fn is_v6_destination(ip: [u8; 16]) -> bool {
    ip != zero_address() && !is_v4_mapped(ip)
}

/// Whether the bytes of a process are to be tracked: an empty filter tracks all
/// processes, any other those that it lists.
pub open spec fn is_tracked(filter: Set<u32>, pid: u32) -> bool {
    filter == Set::<u32>::empty() || filter.contains(pid)
}

impl Transfer {
    pub open spec fn key(self) -> TrafficKey {
        match self.remote {
            Remote::V4(ip) => ipv4_key(self.pid, ip, self.remote_port),
            Remote::V6(ip) => ipv6_key(self.pid, ip, self.remote_port),
        }
    }

    /// The event of the transfer. Its byte count has thirty-two bits only.
    pub open spec fn event(self) -> TrafficEvent {
        TrafficEvent {
            pid: self.pid,
            bytes: low32(self.bytes),
            src_ip4: 0,
            dst_ip4: match self.remote {
                Remote::V4(ip) => ip,
                Remote::V6(_) => 0,
            },
            src_ip6: zero_address(),
            dst_ip6: match self.remote {
                Remote::V4(_) => zero_address(),
                Remote::V6(ip) => ip,
            },
            src_port: 0,
            dst_port: self.remote_port,
            direction: self.direction.code(),
            af: match self.remote {
                Remote::V4(_) => AF_INET,
                Remote::V6(_) => AF_INET6,
            },
            _pad: [0, 0],
        }
    }
}

/// A sum that wraps round at sixty-four bits, as the kernel's counters do.
pub open spec fn wrapped(n: int) -> u64 {
    (n % 0x1_0000_0000_0000_0000) as u64
}

/// Totals with bytes added to the counter of one direction.
pub open spec fn bumped(v: TrafficValue, bytes: u64, dir: Direction) -> TrafficValue {
    match dir {
        Direction::Rx => TrafficValue { rx_bytes: wrapped(v.rx_bytes + bytes), ..v },
        Direction::Tx => TrafficValue { tx_bytes: wrapped(v.tx_bytes + bytes), ..v },
    }
}

/// Totals with those of another call added; the name stays.
pub open spec fn merged(v: TrafficValue, other: TrafficValue) -> TrafficValue {
    TrafficValue {
        rx_bytes: wrapped(v.rx_bytes + other.rx_bytes),
        tx_bytes: wrapped(v.tx_bytes + other.tx_bytes),
        ..v
    }
}

/// Running totals with the bytes of one call added; a new key starts at zero,
/// under the name of the current task.
pub open spec fn added(
    existing: Option<TrafficValue>,
    bytes: u64,
    dir: Direction,
    comm: [u8; 16],
) -> TrafficValue {
    bumped(
        match existing {
            Some(v) => v,
            None => TrafficValue { rx_bytes: 0, tx_bytes: 0, comm },
        },
        bytes,
        dir,
    )
}

/// The update that adds the bytes of one call: a known key has its counter added
/// to, a new one gets its first totals.
pub open spec fn update_for(
    existing: Option<TrafficValue>,
    bytes: u64,
    dir: Direction,
    comm: [u8; 16],
) -> TotalsUpdate {
    match existing {
        Some(_) => TotalsUpdate::Count(dir, bytes),
        None => TotalsUpdate::Insert(added(None, bytes, dir, comm)),
    }
}

/// Return true if we should track a PID, given whether the filter is empty and
/// whether it lists the PID.
pub fn should_track(empty: bool, listed: bool) -> (r: bool)
    ensures
        forall|filter: Set<u32>, pid: u32|
            empty == (filter == Set::<u32>::empty()) && listed == #[trigger] filter.contains(pid)
                ==> r == is_tracked(filter, pid),
        r == (empty || listed),
{
    empty || listed
}

/// Build the key of an IPv4 send or receive.
pub fn make_ipv4_key(pid: u32, remote_ip_be: u32, remote_port: u16) -> (key: TrafficKey)
    ensures
        key == ipv4_key(pid, remote_ip_be, remote_port),
{
    let b = ip4_bytes(remote_ip_be);
    let remote_ip: [u8; 16] = [0, 0, 0, 0, 0, 0, 0, 0, 0, 0, 0, 0, b[0], b[1], b[2], b[3]];
    proof {
        assert(remote_ip =~= ipv4_key(pid, remote_ip_be, remote_port).remote_ip);
    }
    TrafficKey { pid, remote_ip, remote_port, af: AF_INET, _pad: 0 }
}

/// Build the key of an IPv6 send.
pub fn make_ipv6_key(pid: u32, remote_ip: [u8; 16], remote_port: u16) -> (key: TrafficKey)
    ensures
        key == ipv6_key(pid, remote_ip, remote_port),
{
    TrafficKey { pid, remote_ip, remote_port, af: AF_INET6, _pad: 0 }
}

/// How the running totals of a key take the bytes of a call.
pub fn update_totals(
    existing: Option<TrafficValue>,
    bytes: u64,
    dir: Direction,
    comm: &[u8; 16],
) -> (update: TotalsUpdate)
    ensures
        update == update_for(existing, bytes, dir, *comm),
{
    match existing {
        Some(_) => TotalsUpdate::Count(dir, bytes),
        None => {
            let mut v = TrafficValue::default();
            if dir == Direction::Rx {
                v.rx_bytes = bytes;
            } else {
                v.tx_bytes = bytes;
            }
            v.comm = *comm;
            TotalsUpdate::Insert(v)
        },
    }
}

fn zero_bytes() -> (b: [u8; 16])
    ensures
        b == zero_address(),
{
    let b: [u8; 16] = [0; 16];
    assert(b =~= zero_address());
    b
}

/// Whether a datagram to the address goes out as IPv6.
pub fn goes_out_as_v6(ip: &[u8; 16]) -> (r: bool)
    ensures
        r == is_v6_destination(*ip),
{
    let zero = zero_bytes();
    let is_zero = bytes_equal(ip.as_slice(), zero.as_slice());
    proof {
        assert(is_zero ==> *ip =~= zero);
    }
    let mut i: usize = 0;
    while i < 10 && ip[i] == 0
        invariant
            i <= 10,
            forall|j: int| 0 <= j < i ==> #[trigger] ip@[j] == 0,
        decreases 10 - i,
    {
        i += 1;
    }
    let is_mapped = i == 10 && ip[10] == 0xFF && ip[11] == 0xFF;
    proof {
        if i < 10 {
            assert(ip@[i as int] != 0);
        }
        assert(is_mapped == is_v4_mapped(*ip));
    }
    !is_zero && !is_mapped
}

fn host_port(port_be: u16) -> (port: u16)
    ensures
        port == port_from_be(port_be),
{
    (port_be % 0x100) * 0x100 + port_be / 0x100
}

/// The address and port of a socket address, from what was read of its port
/// and its address. (0, 0) on failure.
pub fn read_sockaddr_in(port_be: Option<u16>, ip_be: Option<u32>) -> (r: (u32, u16))
    ensures
        r == match (port_be, ip_be) {
            (Some(p), Some(ip)) => (ip, port_from_be(p)),
            _ => (0u32, 0u16),
        },
{
    let port_be = match port_be {
        Some(p) => p,
        None => return (0, 0),
    };
    let ip_be = match ip_be {
        Some(ip) => ip,
        None => return (0, 0),
    };
    (ip_be, host_port(port_be))
}

impl Transfer {
    /// The key of the transfer.
    pub fn to_key(&self) -> (key: TrafficKey)
        ensures
            key == self.key(),
    {
        match self.remote {
            Remote::V4(ip) => make_ipv4_key(self.pid, ip, self.remote_port),
            Remote::V6(ip) => make_ipv6_key(self.pid, ip, self.remote_port),
        }
    }

    /// The event of the transfer.
    pub fn to_event(&self) -> (ev: TrafficEvent)
        ensures
            ev == self.event(),
            self.bytes <= u32::MAX ==> ev.bytes == self.bytes,
    {
        let pad: [u8; 2] = [0; 2];
        proof {
            assert(pad =~= self.event()._pad);
        }
        let (dst_ip4, dst_ip6, af): (u32, [u8; 16], u8) = match self.remote {
            Remote::V4(ip) => (ip, zero_bytes(), AF_INET),
            Remote::V6(ip) => (0, ip, AF_INET6),
        };
        TrafficEvent {
            pid: self.pid,
            bytes: (self.bytes % 0x1_0000_0000) as u32,
            src_ip4: 0,
            dst_ip4,
            src_ip6: zero_bytes(),
            dst_ip6,
            src_port: 0,
            dst_port: self.remote_port,
            direction: self.direction.to_code(),
            af,
            _pad: pad,
        }
    }
}

impl ProbeState {
    /// The addresses that the state is about to read are within memory.
    pub open spec fn wf(self) -> bool {
        match self {
            ProbeState::SockPort { sk, .. } => sk + SOCK_DPORT_OFFSET <= u64::MAX,
            ProbeState::SinPort { name, .. } => name + SIN_PORT_OFFSET <= u64::MAX,
            ProbeState::SinAddr { name, .. } => name + SIN_ADDR_OFFSET <= u64::MAX,
            ProbeState::Sin6Port { name, .. } => name + SIN_PORT_OFFSET <= u64::MAX,
            ProbeState::Sin6Addr { name, .. } => name + SIN6_ADDR_OFFSET <= u64::MAX,
            _ => true,
        }
    }

    /// What the state wants done.
    pub open spec fn wanted(self) -> ProbeAction {
        match self {
            ProbeState::Size { .. } => ProbeAction::ReadArg(2),
            ProbeState::Returned => ProbeAction::ReadReturned,
            ProbeState::Task { .. } => ProbeAction::ReadTask,
            ProbeState::Filter { .. } => ProbeAction::PeekFilter,
            ProbeState::Listed { pid, .. } => ProbeAction::LookupFilter(pid),
            ProbeState::Sock { .. } => ProbeAction::ReadArg(0),
            ProbeState::SockAddr { sk, .. } => ProbeAction::ReadU32(sk),
            ProbeState::SockPort { sk, .. } => ProbeAction::ReadU16(
                (sk + SOCK_DPORT_OFFSET) as u64,
            ),
            ProbeState::Msg { .. } => ProbeAction::ReadArg(1),
            ProbeState::MsgName { msg, .. } => ProbeAction::ReadU64(msg),
            ProbeState::SinPort { name, .. } => ProbeAction::ReadU16(
                (name + SIN_PORT_OFFSET) as u64,
            ),
            ProbeState::SinAddr { name, .. } => ProbeAction::ReadU32(
                (name + SIN_ADDR_OFFSET) as u64,
            ),
            ProbeState::Sin6Family { name, .. } => ProbeAction::ReadU16(name),
            ProbeState::Sin6Port { name, .. } => ProbeAction::ReadU16(
                (name + SIN_PORT_OFFSET) as u64,
            ),
            ProbeState::Sin6Addr { name, .. } => ProbeAction::ReadAddr(
                (name + SIN6_ADDR_OFFSET) as u64,
            ),
            ProbeState::Comm { .. } => ProbeAction::ReadComm,
            ProbeState::Totals { transfer, .. } => ProbeAction::LookupTotals(transfer.key()),
            ProbeState::Update { transfer, update } => ProbeAction::UpdateTotals(
                transfer.key(),
                update,
            ),
            ProbeState::Emit { transfer } => ProbeAction::EmitEvent(transfer.event()),
            ProbeState::Finished => ProbeAction::Return(0),
        }
    }

    /// Whether the reply answers what the state wants done, and leads to no
    /// address beyond memory.
    pub open spec fn takes(self, reply: ProbeReply) -> bool {
        match (self, reply) {
            (ProbeState::Size { .. }, ProbeReply::Arg(_)) => true,
            (ProbeState::Returned, ProbeReply::Returned(_)) => true,
            (ProbeState::Task { .. }, ProbeReply::Task(_)) => true,
            (ProbeState::Filter { .. }, ProbeReply::FilterEmpty(_)) => true,
            (ProbeState::Listed { .. }, ProbeReply::Listed(_)) => true,
            (ProbeState::Sock { .. }, ProbeReply::Arg(_)) => true,
            (ProbeState::SockAddr { sk, .. }, ProbeReply::U32(ip)) => ip is Some ==> sk
                + SOCK_DPORT_OFFSET <= u64::MAX,
            (ProbeState::SockPort { .. }, ProbeReply::U16(_)) => true,
            (ProbeState::Msg { .. }, ProbeReply::Arg(_)) => true,
            (ProbeState::MsgName { path, .. }, ProbeReply::U64(name)) => match name {
                Some(name) => path == ProbePath::UdpSend ==> name + SIN_PORT_OFFSET <= u64::MAX,
                None => true,
            },
            (ProbeState::SinPort { name, .. }, ProbeReply::U16(port)) => port is Some ==> name
                + SIN_ADDR_OFFSET <= u64::MAX,
            (ProbeState::SinAddr { .. }, ProbeReply::U32(_)) => true,
            (ProbeState::Sin6Family { name, .. }, ProbeReply::U16(family)) => family == Some(
                AF_INET6 as u16,
            ) ==> name + SIN_PORT_OFFSET <= u64::MAX,
            (ProbeState::Sin6Port { name, .. }, ProbeReply::U16(port)) => port is Some ==> name
                + SIN6_ADDR_OFFSET <= u64::MAX,
            (ProbeState::Sin6Addr { .. }, ProbeReply::Addr(_)) => true,
            (ProbeState::Comm { .. }, ProbeReply::Comm(_)) => true,
            (ProbeState::Totals { .. }, ProbeReply::Totals(_)) => true,
            (ProbeState::Update { .. }, ProbeReply::Done) => true,
            (ProbeState::Emit { .. }, ProbeReply::Done) => true,
            _ => false,
        }
    }

    /// Where a probe goes once it is known that the process is tracked.
    pub open spec fn admitted(path: ProbePath, bytes: u64, pid: u32) -> ProbeState {
        match path {
            ProbePath::TcpSend => ProbeState::Sock { bytes, pid },
            ProbePath::UdpSend => ProbeState::Msg { path, bytes, pid },
            ProbePath::Udp6Send => ProbeState::Msg { path, bytes, pid },
            ProbePath::Receive => ProbeState::Comm {
                transfer: Transfer {
                    pid,
                    bytes,
                    direction: Direction::Rx,
                    remote: Remote::V4(0),
                    remote_port: 0,
                },
            },
        }
    }

    /// Where a probe goes once the destination is known.
    pub open spec fn sent(bytes: u64, pid: u32, remote: Remote, port: u16) -> ProbeState {
        ProbeState::Comm {
            transfer: Transfer {
                pid,
                bytes,
                direction: Direction::Tx,
                remote,
                remote_port: port,
            },
        }
    }

    /// The state after a reply. A probe gives up where a read failed, nothing
    /// was transferred, the process is not tracked, or a datagram has no
    /// destination of its family.
    pub open spec fn next(self, reply: ProbeReply) -> ProbeState {
        match (self, reply) {
            (ProbeState::Size { path }, ProbeReply::Arg(Some(size))) if size != 0 =>
                ProbeState::Task { path, bytes: size },
            (ProbeState::Returned, ProbeReply::Returned(Some(n))) if n > 0 => ProbeState::Task {
                path: ProbePath::Receive,
                bytes: n as u64,
            },
            (ProbeState::Task { path, bytes }, ProbeReply::Task(id)) => ProbeState::Filter {
                path,
                bytes,
                pid: task_pid(id),
            },
            (ProbeState::Filter { path, bytes, pid }, ProbeReply::FilterEmpty(empty)) =>
                if empty {
                    ProbeState::admitted(path, bytes, pid)
                } else {
                    ProbeState::Listed { path, bytes, pid }
                },
            (ProbeState::Listed { path, bytes, pid }, ProbeReply::Listed(true)) =>
                ProbeState::admitted(path, bytes, pid),
            (ProbeState::Sock { bytes, pid }, ProbeReply::Arg(Some(sk))) => ProbeState::SockAddr {
                bytes,
                pid,
                sk,
            },
            (ProbeState::SockAddr { bytes, pid, sk }, ProbeReply::U32(Some(ip))) =>
                ProbeState::SockPort { bytes, pid, sk, ip },
            (ProbeState::SockPort { bytes, pid, ip, .. }, ProbeReply::U16(Some(port_be))) =>
                ProbeState::sent(bytes, pid, Remote::V4(ip), port_from_be(port_be)),
            (ProbeState::Msg { path, bytes, pid }, ProbeReply::Arg(Some(msg))) =>
                ProbeState::MsgName { path, bytes, pid, msg },
            (ProbeState::MsgName { path, bytes, pid, .. }, ProbeReply::U64(Some(name))) if name
                != 0 => if path == ProbePath::UdpSend {
                ProbeState::SinPort { bytes, pid, name }
            } else {
                ProbeState::Sin6Family { bytes, pid, name }
            },
            (ProbeState::SinPort { bytes, pid, name }, ProbeReply::U16(Some(port_be))) =>
                ProbeState::SinAddr { bytes, pid, name, port_be },
            (ProbeState::SinAddr { bytes, pid, port_be, .. }, ProbeReply::U32(Some(ip))) if ip
                != 0 => ProbeState::sent(bytes, pid, Remote::V4(ip), port_from_be(port_be)),
            (ProbeState::Sin6Family { bytes, pid, name }, ProbeReply::U16(Some(family))) if family
                == AF_INET6 => ProbeState::Sin6Port { bytes, pid, name },
            (ProbeState::Sin6Port { bytes, pid, name }, ProbeReply::U16(Some(port_be))) =>
                ProbeState::Sin6Addr { bytes, pid, name, port_be },
            (ProbeState::Sin6Addr { bytes, pid, port_be, .. }, ProbeReply::Addr(Some(ip))) if
                is_v6_destination(ip) => ProbeState::sent(
                bytes,
                pid,
                Remote::V6(ip),
                port_from_be(port_be),
            ),
            (ProbeState::Comm { transfer }, ProbeReply::Comm(comm)) => ProbeState::Totals {
                transfer,
                comm,
            },
            (ProbeState::Totals { transfer, comm }, ProbeReply::Totals(existing)) =>
                ProbeState::Update {
                    transfer,
                    update: update_for(existing, transfer.bytes, transfer.direction, comm),
                },
            (ProbeState::Update { transfer, .. }, ProbeReply::Done) => ProbeState::Emit {
                transfer,
            },
            _ => ProbeState::Finished,
        }
    }

    /// What the state wants done.
    pub fn action(&self) -> (action: ProbeAction)
        requires
            self.wf(),
        ensures
            action == self.wanted(),
    {
        match *self {
            ProbeState::Size { .. } => ProbeAction::ReadArg(2),
            ProbeState::Returned => ProbeAction::ReadReturned,
            ProbeState::Task { .. } => ProbeAction::ReadTask,
            ProbeState::Filter { .. } => ProbeAction::PeekFilter,
            ProbeState::Listed { pid, .. } => ProbeAction::LookupFilter(pid),
            ProbeState::Sock { .. } => ProbeAction::ReadArg(0),
            ProbeState::SockAddr { sk, .. } => ProbeAction::ReadU32(sk),
            ProbeState::SockPort { sk, .. } => ProbeAction::ReadU16(sk + SOCK_DPORT_OFFSET),
            ProbeState::Msg { .. } => ProbeAction::ReadArg(1),
            ProbeState::MsgName { msg, .. } => ProbeAction::ReadU64(msg),
            ProbeState::SinPort { name, .. } => ProbeAction::ReadU16(name + SIN_PORT_OFFSET),
            ProbeState::SinAddr { name, .. } => ProbeAction::ReadU32(name + SIN_ADDR_OFFSET),
            ProbeState::Sin6Family { name, .. } => ProbeAction::ReadU16(name),
            ProbeState::Sin6Port { name, .. } => ProbeAction::ReadU16(name + SIN_PORT_OFFSET),
            ProbeState::Sin6Addr { name, .. } => ProbeAction::ReadAddr(name + SIN6_ADDR_OFFSET),
            ProbeState::Comm { .. } => ProbeAction::ReadComm,
            ProbeState::Totals { transfer, .. } => ProbeAction::LookupTotals(transfer.to_key()),
            ProbeState::Update { transfer, update } => ProbeAction::UpdateTotals(
                transfer.to_key(),
                update,
            ),
            ProbeState::Emit { transfer } => ProbeAction::EmitEvent(transfer.to_event()),
            ProbeState::Finished => ProbeAction::Return(0),
        }
    }

    /// Whether `step` can take the reply.
    pub fn accepts(&self, reply: &ProbeReply) -> (r: bool)
        ensures
            r == self.takes(*reply),
    {
        match (*self, *reply) {
            (ProbeState::Size { .. }, ProbeReply::Arg(_)) => true,
            (ProbeState::Returned, ProbeReply::Returned(_)) => true,
            (ProbeState::Task { .. }, ProbeReply::Task(_)) => true,
            (ProbeState::Filter { .. }, ProbeReply::FilterEmpty(_)) => true,
            (ProbeState::Listed { .. }, ProbeReply::Listed(_)) => true,
            (ProbeState::Sock { .. }, ProbeReply::Arg(_)) => true,
            (ProbeState::SockAddr { sk, .. }, ProbeReply::U32(ip)) => ip.is_none() || sk <= u64::MAX
                - SOCK_DPORT_OFFSET,
            (ProbeState::SockPort { .. }, ProbeReply::U16(_)) => true,
            (ProbeState::Msg { .. }, ProbeReply::Arg(_)) => true,
            (ProbeState::MsgName { path, .. }, ProbeReply::U64(name)) => match name {
                Some(name) => path != ProbePath::UdpSend || name <= u64::MAX - SIN_PORT_OFFSET,
                None => true,
            },
            (ProbeState::SinPort { name, .. }, ProbeReply::U16(port)) => port.is_none() || name
                <= u64::MAX - SIN_ADDR_OFFSET,
            (ProbeState::SinAddr { .. }, ProbeReply::U32(_)) => true,
            (ProbeState::Sin6Family { name, .. }, ProbeReply::U16(family)) => match family {
                Some(family) => family != AF_INET6 as u16 || name <= u64::MAX - SIN_PORT_OFFSET,
                None => true,
            },
            (ProbeState::Sin6Port { name, .. }, ProbeReply::U16(port)) => port.is_none() || name
                <= u64::MAX - SIN6_ADDR_OFFSET,
            (ProbeState::Sin6Addr { .. }, ProbeReply::Addr(_)) => true,
            (ProbeState::Comm { .. }, ProbeReply::Comm(_)) => true,
            (ProbeState::Totals { .. }, ProbeReply::Totals(_)) => true,
            (ProbeState::Update { .. }, ProbeReply::Done) => true,
            (ProbeState::Emit { .. }, ProbeReply::Done) => true,
            _ => false,
        }
    }

    fn on_admitted(path: ProbePath, bytes: u64, pid: u32) -> (next: ProbeState)
        ensures
            next == ProbeState::admitted(path, bytes, pid),
    {
        match path {
            ProbePath::TcpSend => ProbeState::Sock { bytes, pid },
            ProbePath::UdpSend => ProbeState::Msg { path, bytes, pid },
            ProbePath::Udp6Send => ProbeState::Msg { path, bytes, pid },
            ProbePath::Receive => ProbeState::Comm {
                transfer: Transfer {
                    pid,
                    bytes,
                    direction: Direction::Rx,
                    remote: Remote::V4(0),
                    remote_port: 0,
                },
            },
        }
    }

    fn on_destination(bytes: u64, pid: u32, remote: Remote, port: u16) -> (next: ProbeState)
        ensures
            next == ProbeState::sent(bytes, pid, remote, port),
    {
        ProbeState::Comm {
            transfer: Transfer {
                pid,
                bytes,
                direction: Direction::Tx,
                remote,
                remote_port: port,
            },
        }
    }

    /// Goes on with what came of the state's action.
    pub fn step(self, reply: ProbeReply) -> (next: ProbeState)
        requires
            self.takes(reply),
        ensures
            next == self.next(reply),
            next.wf(),
    {
        match (self, reply) {
            (ProbeState::Size { path }, ProbeReply::Arg(Some(size))) => {
                if size == 0 {
                    return ProbeState::Finished;
                }
                ProbeState::Task { path, bytes: size }
            },
            (ProbeState::Returned, ProbeReply::Returned(Some(n))) => {
                if n <= 0 {
                    return ProbeState::Finished;
                }
                ProbeState::Task { path: ProbePath::Receive, bytes: n as u64 }
            },
            (ProbeState::Task { path, bytes }, ProbeReply::Task(id)) => ProbeState::Filter {
                path,
                bytes,
                pid: (id / 0x1_0000_0000) as u32,
            },
            (ProbeState::Filter { path, bytes, pid }, ProbeReply::FilterEmpty(empty)) => {
                if should_track(empty, false) {
                    ProbeState::on_admitted(path, bytes, pid)
                } else {
                    ProbeState::Listed { path, bytes, pid }
                }
            },
            (ProbeState::Listed { path, bytes, pid }, ProbeReply::Listed(listed)) => {
                if should_track(false, listed) {
                    ProbeState::on_admitted(path, bytes, pid)
                } else {
                    ProbeState::Finished
                }
            },
            (ProbeState::Sock { bytes, pid }, ProbeReply::Arg(Some(sk))) => ProbeState::SockAddr {
                bytes,
                pid,
                sk,
            },
            (ProbeState::SockAddr { bytes, pid, sk }, ProbeReply::U32(Some(ip))) =>
                ProbeState::SockPort { bytes, pid, sk, ip },
            (ProbeState::SockPort { bytes, pid, ip, .. }, ProbeReply::U16(Some(port_be))) =>
                ProbeState::on_destination(bytes, pid, Remote::V4(ip), host_port(port_be)),
            (ProbeState::Msg { path, bytes, pid }, ProbeReply::Arg(Some(msg))) =>
                ProbeState::MsgName { path, bytes, pid, msg },
            (ProbeState::MsgName { path, bytes, pid, .. }, ProbeReply::U64(Some(name))) => {
                if name == 0 {
                    return ProbeState::Finished;
                }
                if path == ProbePath::UdpSend {
                    ProbeState::SinPort { bytes, pid, name }
                } else {
                    ProbeState::Sin6Family { bytes, pid, name }
                }
            },
            (ProbeState::SinPort { bytes, pid, name }, ProbeReply::U16(Some(port_be))) =>
                ProbeState::SinAddr { bytes, pid, name, port_be },
            (ProbeState::SinAddr { bytes, pid, port_be, .. }, ProbeReply::U32(ip)) => {
                let dst = read_sockaddr_in(Some(port_be), ip);
                if dst.0 == 0 {
                    return ProbeState::Finished;
                }
                ProbeState::on_destination(bytes, pid, Remote::V4(dst.0), dst.1)
            },
            (ProbeState::Sin6Family { bytes, pid, name }, ProbeReply::U16(Some(family))) => {
                if family != AF_INET6 as u16 {
                    return ProbeState::Finished;
                }
                ProbeState::Sin6Port { bytes, pid, name }
            },
            (ProbeState::Sin6Port { bytes, pid, name }, ProbeReply::U16(Some(port_be))) =>
                ProbeState::Sin6Addr { bytes, pid, name, port_be },
            (ProbeState::Sin6Addr { bytes, pid, port_be, .. }, ProbeReply::Addr(Some(ip))) => {
                if !goes_out_as_v6(&ip) {
                    return ProbeState::Finished;
                }
                ProbeState::on_destination(bytes, pid, Remote::V6(ip), host_port(port_be))
            },
            (ProbeState::Comm { transfer }, ProbeReply::Comm(comm)) => ProbeState::Totals {
                transfer,
                comm,
            },
            (ProbeState::Totals { transfer, comm }, ProbeReply::Totals(existing)) =>
                ProbeState::Update {
                    transfer,
                    update: update_totals(existing, transfer.bytes, transfer.direction, &comm),
                },
            (ProbeState::Update { transfer, .. }, ProbeReply::Done) => ProbeState::Emit {
                transfer,
            },
            _ => ProbeState::Finished,
        }
    }
}

/// int tcp_sendmsg(struct sock *sk, struct msghdr *msg, size_t size)
pub fn netmon_tcp_sendmsg() -> (start: ProbeState)
    ensures
        start == start_of(ProbePath::TcpSend),
        forall|kernel: Kernel| #[trigger]
            run(kernel, start, MAX_ACTIONS as nat) == outcome(kernel, ProbePath::TcpSend),
{
    proof {
        lemma_probe_records_every_call(ProbePath::TcpSend);
    }
    ProbeState::Size { path: ProbePath::TcpSend }
}

/// int tcp_recvmsg(struct sock *sk, struct msghdr *msg, size_t len, int flags, int *addr_len)
///
/// Only the probe on the way out knows how many bytes came, so this one does
/// nothing.
pub fn netmon_tcp_recvmsg() -> (start: ProbeState)
    ensures
        start == ProbeState::Finished,
        forall|kernel: Kernel| #[trigger]
            run(kernel, start, MAX_ACTIONS as nat) == (ProbeState::Finished, kernel),
{
    ProbeState::Finished
}

/// The probe on the way out of tcp_recvmsg, which captures the byte count
/// returned.
pub fn netmon_tcp_recvmsg_ret() -> (start: ProbeState)
    ensures
        start == start_of(ProbePath::Receive),
        forall|kernel: Kernel| #[trigger]
            run(kernel, start, MAX_ACTIONS as nat) == outcome(kernel, ProbePath::Receive),
{
    proof {
        lemma_probe_records_every_call(ProbePath::Receive);
    }
    ProbeState::Returned
}

/// int udp_sendmsg(struct sock *sk, struct msghdr *msg, size_t len)
pub fn netmon_udp_sendmsg() -> (start: ProbeState)
    ensures
        start == start_of(ProbePath::UdpSend),
        forall|kernel: Kernel| #[trigger]
            run(kernel, start, MAX_ACTIONS as nat) == outcome(kernel, ProbePath::UdpSend),
{
    proof {
        lemma_probe_records_every_call(ProbePath::UdpSend);
    }
    ProbeState::Size { path: ProbePath::UdpSend }
}

/// The probe on the way out of udp_recvmsg, which captures the byte count
/// returned.
pub fn netmon_udp_recvmsg_ret() -> (start: ProbeState)
    ensures
        start == start_of(ProbePath::Receive),
        forall|kernel: Kernel| #[trigger]
            run(kernel, start, MAX_ACTIONS as nat) == outcome(kernel, ProbePath::Receive),
{
    proof {
        lemma_probe_records_every_call(ProbePath::Receive);
    }
    ProbeState::Returned
}

/// int udpv6_sendmsg(struct sock *sk, struct msghdr *msg, size_t len)
pub fn netmon_udpv6_sendmsg() -> (start: ProbeState)
    ensures
        start == start_of(ProbePath::Udp6Send),
        forall|kernel: Kernel| #[trigger]
            run(kernel, start, MAX_ACTIONS as nat) == outcome(kernel, ProbePath::Udp6Send),
{
    proof {
        lemma_probe_records_every_call(ProbePath::Udp6Send);
    }
    ProbeState::Size { path: ProbePath::Udp6Send }
}

/// The probe on the way out of udpv6_recvmsg, which captures the byte count
/// returned.
pub fn netmon_udpv6_recvmsg_ret() -> (start: ProbeState)
    ensures
        start == start_of(ProbePath::Receive),
        forall|kernel: Kernel| #[trigger]
            run(kernel, start, MAX_ACTIONS as nat) == outcome(kernel, ProbePath::Receive),
{
    proof {
        lemma_probe_records_every_call(ProbePath::Receive);
    }
    ProbeState::Returned
}

/// A port is what its two bytes in memory give, the more significant first. So no
/// two ports are taken for one.
pub proof fn law_port_is_read_in_network_order(hi: u8, lo: u8, port_be: u16)
    requires
        port_be == hi + 0x100 * lo,
    ensures
        port_from_be(port_be) == 256 * hi + lo,
{
    assert(port_be % 0x100 == hi);
    assert(port_be / 0x100 == lo);
}

/// Of the two ids of a task, the process is the one in the upper half.
pub proof fn law_process_is_the_upper_half(pid: u32, thread: u32, pid_tgid: u64)
    requires
        pid_tgid == pid * 0x1_0000_0000 + thread,
    ensures
        task_pid(pid_tgid) == pid,
{
}

/// An event says how many bytes its call transferred, exactly wherever thirty-two
/// bits can hold the count; of a larger count it has the lower thirty-two bits.
pub proof fn law_event_says_the_bytes_of_its_call(t: Transfer)
    ensures
        t.bytes <= u32::MAX ==> t.event().bytes == t.bytes,
        (t.bytes - t.event().bytes) % 0x1_0000_0000 == 0,
{
}

/// An event names the process, the direction and the remote end of its call: an IPv4
/// end under family 2, an IPv6 end under family 10, and the rest is zero.
pub proof fn law_event_names_its_call(t: Transfer)
    ensures
        ({
            let ev = t.event();
            &&& ev.pid == t.pid
            &&& ev.dst_port == t.remote_port
            &&& ev.direction == if t.direction == Direction::Tx {
                1u8
            } else {
                0u8
            }
            &&& ev.src_ip4 == 0
            &&& ev.src_port == 0
            &&& forall|i: int| 0 <= i < 16 ==> #[trigger] ev.src_ip6@[i] == 0
            &&& ev._pad@ == seq![0u8, 0u8]
            &&& match t.remote {
                Remote::V4(ip) => {
                    &&& ev.af == 2
                    &&& ev.dst_ip4 == ip
                    &&& forall|i: int| 0 <= i < 16 ==> #[trigger] ev.dst_ip6@[i] == 0
                },
                Remote::V6(ip) => {
                    &&& ev.af == 10
                    &&& ev.dst_ip4 == 0
                    &&& ev.dst_ip6@ == ip@
                },
            }
        }),
{
    assert(t.event()._pad@ =~= seq![0u8, 0u8]);
}

/// A key names the process and the remote end of its call: an IPv4 address in the
/// last four bytes of the address field, as its octets lie in memory, the rest of it
/// zero, under family 2; an IPv6 address in all sixteen, under family 10.
pub proof fn law_key_names_its_call(t: Transfer)
    ensures
        ({
            let key = t.key();
            &&& key.pid == t.pid
            &&& key.remote_port == t.remote_port
            &&& key._pad == 0
            &&& match t.remote {
                Remote::V4(ip) => {
                    &&& key.af == 2
                    &&& forall|i: int| 0 <= i < 12 ==> #[trigger] key.remote_ip@[i] == 0
                    &&& ip == key.remote_ip@[12] + 0x100 * key.remote_ip@[13] + 0x1_0000
                        * key.remote_ip@[14] + 0x100_0000 * key.remote_ip@[15]
                },
                Remote::V6(ip) => {
                    &&& key.af == 10
                    &&& key.remote_ip@ == ip@
                },
            }
        }),
{
    if let Remote::V4(ip) = t.remote {
        law_octets_make_up_the_address(ip);
        let b = ip4_octets(ip);
        let field = t.key().remote_ip@;
        assert(field[12] == b@[0] && field[13] == b@[1] && field[14] == b@[2] && field[15]
            == b@[3]);
    }
}

/// A datagram goes out as IPv6 to any address but two kinds: that of sixteen zeroes,
/// and that of an IPv4 address, which has ten zeroes and two bytes of ones before it.
pub proof fn law_ipv6_destinations(ip: [u8; 16], i: int)
    ensures
        ip@ == Seq::new(16, |j: int| 0u8) ==> !is_v6_destination(ip),
        ip@.take(10) == Seq::new(10, |j: int| 0u8) && ip@[10] == 255 && ip@[11] == 255
            ==> !is_v6_destination(ip),
        0 <= i < 10 && ip@[i] != 0 ==> is_v6_destination(ip),
        0 <= i < 16 && ip@[i] != 0 && !(ip@[10] == 255 && ip@[11] == 255) ==> is_v6_destination(
            ip,
        ),
{
    let zero = zero_address();
    assert(zero@ =~= Seq::new(16, |j: int| 0u8));
    if ip@ == Seq::new(16, |j: int| 0u8) {
        assert(ip =~= zero);
    }
    if ip@.take(10) == Seq::new(10, |j: int| 0u8) {
        assert forall|j: int| 0 <= j < 10 implies #[trigger] ip@[j] == 0 by {
            assert(ip@.take(10)[j] == ip@[j]);
        }
    }
    if 0 <= i < 16 && ip@[i] != 0 {
        assert(ip@[i] != zero@[i]);
    }
}

/// The bytes of a call to a known key go to the counter of their direction; a new key
/// starts with them, with nothing in the other direction, under the name given.
pub proof fn law_update_is_of_its_call(
    existing: Option<TrafficValue>,
    bytes: u64,
    dir: Direction,
    comm: [u8; 16],
)
    ensures
        match update_for(existing, bytes, dir, comm) {
            TotalsUpdate::Count(d, n) => existing is Some && d == dir && n == bytes,
            TotalsUpdate::Insert(v) => existing is None && v.comm == comm && match dir {
                Direction::Rx => v.rx_bytes == bytes && v.tx_bytes == 0,
                Direction::Tx => v.tx_bytes == bytes && v.rx_bytes == 0,
            },
        },
{
}

} // verus!
