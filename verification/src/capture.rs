//! What a probe does to the kernel's maps, from its first action to its return.

use vstd::prelude::*;

use crate::probe::{
    added, bumped, is_tracked, is_v6_destination, law_event_names_its_call,
    law_event_says_the_bytes_of_its_call, law_ipv6_destinations, law_key_names_its_call,
    law_port_is_read_in_network_order, merged, port_from_be, task_pid, update_for, ProbeAction,
    ProbePath, ProbeReply, ProbeState, Remote, TotalsUpdate, Transfer, SIN6_ADDR_OFFSET,
    SIN_ADDR_OFFSET, SIN_PORT_OFFSET, SOCK_DPORT_OFFSET,
};
use crate::traffic::{
    ip4_octets, Direction, TrafficEvent, TrafficKey, TrafficValue, AF_INET6,
};

verus! {

/// What a probe can see of the kernel, and the maps that it writes to.
pub struct Kernel {
    /// The arguments of the watched function, and what it returned.
    pub args: Map<usize, u64>,
    pub returned: Option<i64>,
    /// The current task: its ids and its name.
    pub task: u64,
    pub comm: [u8; 16],
    /// The memory that can be read, by the width of the read.
    pub u16s: Map<u64, u16>,
    pub u32s: Map<u64, u32>,
    pub u64s: Map<u64, u64>,
    pub addrs: Map<u64, [u8; 16]>,
    pub filter: Set<u32>,
    /// The running totals, and whether the map takes another key.
    pub totals: Map<TrafficKey, TrafficValue>,
    pub room_for_key: bool,
    /// The ring buffer, and whether it takes another event.
    pub events: Seq<TrafficEvent>,
    pub room_for_event: bool,
}

/// What a map has at a key.
pub open spec fn lookup<K, V>(m: Map<K, V>, k: K) -> Option<V> {
    if m.dom().contains(k) {
        Some(m[k])
    } else {
        None
    }
}

/// Which way bytes go on a path.
pub open spec fn direction_of(path: ProbePath) -> Direction {
    if path == ProbePath::Receive {
        Direction::Rx
    } else {
        Direction::Tx
    }
}

impl Kernel {
    /// What comes of an action.
    pub open spec fn reply(self, action: ProbeAction) -> ProbeReply {
        match action {
            ProbeAction::ReadArg(n) => ProbeReply::Arg(lookup(self.args, n)),
            ProbeAction::ReadReturned => ProbeReply::Returned(self.returned),
            ProbeAction::ReadTask => ProbeReply::Task(self.task),
            ProbeAction::PeekFilter => ProbeReply::FilterEmpty(
                self.filter == Set::<u32>::empty(),
            ),
            ProbeAction::LookupFilter(pid) => ProbeReply::Listed(self.filter.contains(pid)),
            ProbeAction::ReadU16(at) => ProbeReply::U16(lookup(self.u16s, at)),
            ProbeAction::ReadU32(at) => ProbeReply::U32(lookup(self.u32s, at)),
            ProbeAction::ReadU64(at) => ProbeReply::U64(lookup(self.u64s, at)),
            ProbeAction::ReadAddr(at) => ProbeReply::Addr(lookup(self.addrs, at)),
            ProbeAction::ReadComm => ProbeReply::Comm(self.comm),
            ProbeAction::LookupTotals(key) => ProbeReply::Totals(lookup(self.totals, key)),
            _ => ProbeReply::Done,
        }
    }

    /// The kernel once an action is done.
    pub open spec fn after(self, action: ProbeAction) -> Kernel {
        match action {
            ProbeAction::UpdateTotals(key, update) => self.with_update(key, update),
            ProbeAction::EmitEvent(ev) => self.with_event(ev),
            _ => self,
        }
    }

    /// The kernel once the totals of a key are brought up to date.
    pub open spec fn with_update(self, key: TrafficKey, update: TotalsUpdate) -> Kernel {
        match update {
            TotalsUpdate::Insert(value) => self.with_totals(key, value),
            TotalsUpdate::Count(dir, bytes) => self.with_count(key, dir, bytes),
        }
    }

    /// The counter of a key is added to, where the map has the key.
    pub open spec fn with_count(self, key: TrafficKey, dir: Direction, bytes: u64) -> Kernel {
        match lookup(self.totals, key) {
            Some(v) => Kernel { totals: self.totals.insert(key, bumped(v, bytes, dir)), ..self },
            None => self,
        }
    }

    /// The first totals of a key are put down. They are added where the key is
    /// there meanwhile, and lost where the map is full.
    pub open spec fn with_totals(self, key: TrafficKey, value: TrafficValue) -> Kernel {
        match lookup(self.totals, key) {
            Some(v) => Kernel { totals: self.totals.insert(key, merged(v, value)), ..self },
            None => if self.room_for_key {
                Kernel { totals: self.totals.insert(key, value), ..self }
            } else {
                self
            },
        }
    }

    /// An event is lost where the ring buffer is full.
    pub open spec fn with_event(self, ev: TrafficEvent) -> Kernel {
        if self.room_for_event {
            Kernel { events: self.events.push(ev), ..self }
        } else {
            self
        }
    }

    /// How many bytes the watched call transferred, if any.
    pub open spec fn count(self, path: ProbePath) -> Option<u64> {
        match path {
            ProbePath::Receive => match self.returned {
                Some(n) if n > 0 => Some(n as u64),
                _ => None,
            },
            _ => match lookup(self.args, 2usize) {
                Some(n) if n != 0 => Some(n),
                _ => None,
            },
        }
    }

    /// The remote end of the watched call, if it can be read.
    pub open spec fn remote(self, path: ProbePath) -> Option<(Remote, u16)> {
        match path {
            ProbePath::Receive => Some((Remote::V4(0), 0u16)),
            ProbePath::TcpSend => match lookup(self.args, 0usize) {
                Some(sk) => match (
                    lookup(self.u32s, sk),
                    lookup(self.u16s, (sk + SOCK_DPORT_OFFSET) as u64),
                ) {
                    (Some(ip), Some(port_be)) => Some((Remote::V4(ip), port_from_be(port_be))),
                    _ => None,
                },
                None => None,
            },
            ProbePath::UdpSend => match lookup(self.args, 1usize) {
                Some(msg) => match lookup(self.u64s, msg) {
                    Some(name) if name != 0 => match (
                        lookup(self.u16s, (name + SIN_PORT_OFFSET) as u64),
                        lookup(self.u32s, (name + SIN_ADDR_OFFSET) as u64),
                    ) {
                        (Some(port_be), Some(ip)) if ip != 0 => Some(
                            (Remote::V4(ip), port_from_be(port_be)),
                        ),
                        _ => None,
                    },
                    _ => None,
                },
                None => None,
            },
            ProbePath::Udp6Send => match lookup(self.args, 1usize) {
                Some(msg) => match lookup(self.u64s, msg) {
                    Some(name) if name != 0 && lookup(self.u16s, name) == Some(
                        AF_INET6 as u16,
                    ) => match (
                        lookup(self.u16s, (name + SIN_PORT_OFFSET) as u64),
                        lookup(self.addrs, (name + SIN6_ADDR_OFFSET) as u64),
                    ) {
                        (Some(port_be), Some(ip)) if is_v6_destination(ip) => Some(
                            (Remote::V6(ip), port_from_be(port_be)),
                        ),
                        _ => None,
                    },
                    _ => None,
                },
                None => None,
            },
        }
    }

    /// The transfer that the watched call made: bytes of a tracked process with
    /// a remote end.
    pub open spec fn observed(self, path: ProbePath) -> Option<Transfer> {
        match (self.count(path), self.remote(path)) {
            (Some(bytes), Some((remote, port))) if is_tracked(
                self.filter,
                task_pid(self.task),
            ) => Some(
                Transfer {
                    pid: task_pid(self.task),
                    bytes,
                    direction: direction_of(path),
                    remote,
                    remote_port: port,
                },
            ),
            _ => None,
        }
    }

    /// The kernel with the bytes of a transfer in the totals of its key. A new key
    /// is lost where the map is full; a known one is always added to.
    pub open spec fn with_transfer(self, t: Transfer) -> Kernel {
        if self.totals.dom().contains(t.key()) || self.room_for_key {
            Kernel {
                totals: self.totals.insert(
                    t.key(),
                    added(lookup(self.totals, t.key()), t.bytes, t.direction, self.comm),
                ),
                ..self
            }
        } else {
            self
        }
    }

    /// The kernel with a transfer put down: its bytes added to the totals of its
    /// key, and its event in the ring buffer.
    pub open spec fn recorded(self, t: Transfer) -> Kernel {
        self.with_transfer(t).with_event(t.event())
    }
}

/// How a probe ends: it returns, and the transfer that the watched call made is
/// put down, if it made one; else the maps are as they were.
pub open spec fn outcome(kernel: Kernel, path: ProbePath) -> (ProbeState, Kernel) {
    (
        ProbeState::Finished,
        match kernel.observed(path) {
            Some(t) => kernel.recorded(t),
            None => kernel,
        },
    )
}

/// Where a probe starts on a path.
pub open spec fn start_of(path: ProbePath) -> ProbeState {
    match path {
        ProbePath::Receive => ProbeState::Returned,
        _ => ProbeState::Size { path },
    }
}

/// The state and the kernel after at most `n` actions.
pub open spec fn run(kernel: Kernel, state: ProbeState, n: nat) -> (ProbeState, Kernel)
    decreases n,
{
    if n == 0 || state == ProbeState::Finished {
        (state, kernel)
    } else {
        run(
            kernel.after(state.wanted()),
            state.next(kernel.reply(state.wanted())),
            (n - 1) as nat,
        )
    }
}

/// How many actions a probe takes at most.
pub const MAX_ACTIONS: usize = 13;

/// How many reads it takes to find the remote end on a path.
spec fn reads(path: ProbePath) -> nat {
    match path {
        ProbePath::TcpSend => 3,
        ProbePath::UdpSend => 4,
        ProbePath::Udp6Send => 5,
        ProbePath::Receive => 0,
    }
}

proof fn lemma_tail(kernel: Kernel, t: Transfer, n: nat)
    requires
        n >= 4,
    ensures
        run(kernel, ProbeState::Comm { transfer: t }, n) == (
            ProbeState::Finished,
            kernel.recorded(t),
        ),
{
    reveal_with_fuel(run, 6);
}

/// The transfer of a tracked process, if the remote end can be read.
spec fn addressed(kernel: Kernel, path: ProbePath, bytes: u64, pid: u32) -> Option<Transfer> {
    match kernel.remote(path) {
        Some((remote, port)) => Some(
            Transfer { pid, bytes, direction: direction_of(path), remote, remote_port: port },
        ),
        None => None,
    }
}

/// One action of a run.
proof fn lemma_step(kernel: Kernel, state: ProbeState, n: nat) -> (next: ProbeState)
    requires
        n > 0,
        state != ProbeState::Finished,
        kernel.after(state.wanted()) == kernel,
    ensures
        next == state.next(kernel.reply(state.wanted())),
        run(kernel, state, n) == run(kernel, next, (n - 1) as nat),
{
    state.next(kernel.reply(state.wanted()))
}

/// A probe of a tracked process finds the remote end, or gives up.
proof fn lemma_finds_remote(kernel: Kernel, path: ProbePath, bytes: u64, pid: u32, n: nat)
    requires
        n >= 5,
    ensures
        match addressed(kernel, path, bytes, pid) {
            Some(t) => run(kernel, ProbeState::admitted(path, bytes, pid), n) == run(
                kernel,
                ProbeState::Comm { transfer: t },
                (n - reads(path)) as nat,
            ),
            None => run(kernel, ProbeState::admitted(path, bytes, pid), n) == (
                ProbeState::Finished,
                kernel,
            ),
        },
{
    let s0 = ProbeState::admitted(path, bytes, pid);
    if path != ProbePath::Receive {
        let s1 = lemma_step(kernel, s0, n);
        if s1 != ProbeState::Finished {
            let s2 = lemma_step(kernel, s1, (n - 1) as nat);
            if s2 != ProbeState::Finished {
                let s3 = lemma_step(kernel, s2, (n - 2) as nat);
                if s3 != ProbeState::Finished && path != ProbePath::TcpSend {
                    let s4 = lemma_step(kernel, s3, (n - 3) as nat);
                    if s4 != ProbeState::Finished && path == ProbePath::Udp6Send {
                        lemma_step(kernel, s4, (n - 4) as nat);
                    }
                }
            }
        }
    }
}

/// A probe of a tracked process puts down the transfer, if the remote end can be
/// read.
proof fn lemma_from_admitted(kernel: Kernel, path: ProbePath, bytes: u64, pid: u32, n: nat)
    requires
        n >= 9,
    ensures
        run(kernel, ProbeState::admitted(path, bytes, pid), n) == (
            ProbeState::Finished,
            match addressed(kernel, path, bytes, pid) {
                Some(t) => kernel.recorded(t),
                None => kernel,
            },
        ),
{
    lemma_finds_remote(kernel, path, bytes, pid, n);
    if let Some(t) = addressed(kernel, path, bytes, pid) {
        lemma_tail(kernel, t, (n - reads(path)) as nat);
    }
}

/// For each call a probe adds the bytes to the running totals of the process
/// and its remote end and emits one event, if bytes were transferred, the
/// process is tracked and the remote end can be read; otherwise it leaves the
/// kernel's maps as they were. Either way it returns.
pub proof fn law_probe_records_the_call(kernel: Kernel, path: ProbePath)
    ensures
        run(kernel, start_of(path), MAX_ACTIONS as nat) == outcome(kernel, path),
{
    reveal_with_fuel(run, 6);
    let pid = task_pid(kernel.task);
    if let Some(bytes) = kernel.count(path) {
        if is_tracked(kernel.filter, pid) {
            let n: nat = if kernel.filter == Set::<u32>::empty() {
                10
            } else {
                9
            };
            lemma_from_admitted(kernel, path, bytes, pid, n);
        }
    }
}

/// The law above for every kernel at once.
pub(crate) proof fn lemma_probe_records_every_call(path: ProbePath)
    ensures
        forall|kernel: Kernel| #[trigger]
            run(kernel, start_of(path), MAX_ACTIONS as nat) == outcome(kernel, path),
{
    assert forall|kernel: Kernel| #[trigger]
        run(kernel, start_of(path), MAX_ACTIONS as nat) == outcome(kernel, path) by {
        law_probe_records_the_call(kernel, path);
    }
}

/// Whether each reply within `n` actions is one that the probe can take.
pub open spec fn takes_all(kernel: Kernel, state: ProbeState, n: nat) -> bool
    decreases n,
{
    n == 0 || state == ProbeState::Finished || (state.wf() && state.takes(
        kernel.reply(state.wanted()),
    ) && takes_all(
        kernel.after(state.wanted()),
        state.next(kernel.reply(state.wanted())),
        (n - 1) as nat,
    ))
}

/// The addresses that a probe forms are within memory.
pub open spec fn is_within_bounds(kernel: Kernel, path: ProbePath) -> bool {
    &&& path == ProbePath::TcpSend ==> (lookup(kernel.args, 0usize) matches Some(sk) ==> lookup(
        kernel.u32s,
        sk,
    ) is Some ==> sk + SOCK_DPORT_OFFSET <= u64::MAX)
    &&& path == ProbePath::UdpSend ==> (lookup(kernel.args, 1usize) matches Some(msg) ==> (lookup(
        kernel.u64s,
        msg,
    ) matches Some(name) ==> {
        &&& name + SIN_PORT_OFFSET <= u64::MAX
        &&& lookup(kernel.u16s, (name + SIN_PORT_OFFSET) as u64) is Some ==> name
            + SIN_ADDR_OFFSET <= u64::MAX
    }))
    &&& path == ProbePath::Udp6Send ==> (lookup(kernel.args, 1usize) matches Some(msg) ==> (lookup(
        kernel.u64s,
        msg,
    ) matches Some(name) ==> lookup(kernel.u16s, name) == Some(AF_INET6 as u16) ==> {
        &&& name + SIN_PORT_OFFSET <= u64::MAX
        &&& lookup(kernel.u16s, (name + SIN_PORT_OFFSET) as u64) is Some ==> name
            + SIN6_ADDR_OFFSET <= u64::MAX
    }))
}

proof fn lemma_tail_takes_all(kernel: Kernel, t: Transfer, n: nat)
    ensures
        takes_all(kernel, ProbeState::Comm { transfer: t }, n),
{
    reveal_with_fuel(takes_all, 6);
}

/// The same once it is known that the process is tracked.
proof fn lemma_admitted_takes_all(kernel: Kernel, path: ProbePath, n: nat)
    requires
        is_within_bounds(kernel, path),
        kernel.count(path) is Some,
        is_tracked(kernel.filter, task_pid(kernel.task)),
        n >= 5,
    ensures
        takes_all(
            kernel,
            ProbeState::admitted(path, kernel.count(path)->0, task_pid(kernel.task)),
            n,
        ),
{
    reveal_with_fuel(takes_all, 6);
    if let Some(t) = kernel.observed(path) {
        lemma_tail_takes_all(kernel, t, (n - reads(path)) as nat);
    }
}

/// A probe never comes to a reply that it cannot take, while its addresses are
/// within memory.
pub proof fn law_probe_takes_every_reply(kernel: Kernel, path: ProbePath)
    requires
        is_within_bounds(kernel, path),
    ensures
        takes_all(kernel, start_of(path), MAX_ACTIONS as nat),
{
    reveal_with_fuel(takes_all, 6);
    if kernel.count(path) is Some && is_tracked(kernel.filter, task_pid(kernel.task)) {
        let n: nat = if kernel.filter == Set::<u32>::empty() {
            10
        } else {
            9
        };
        lemma_admitted_takes_all(kernel, path, n);
    }
}

/// The totals and the event of a transfer name the same flow, so that the two
/// sources that feed the traffic table agree on where its bytes belong.
pub proof fn law_totals_and_event_name_the_same_flow(t: Transfer)
    ensures
        t.key().flow() == t.event().flow(),
        t.event().is_tx() == (t.direction == Direction::Tx),
{
    if let Remote::V4(ip) = t.remote {
        let field = t.key().remote_ip;
        assert([field[12], field[13], field[14], field[15]] =~= ip4_octets(ip));
    }
}

/// An empty filter tracks all processes, any other those that it lists.
pub proof fn law_filter_follows_its_emptiness(filter: Set<u32>, pid: u32)
    ensures
        is_tracked(filter, pid) == (filter == Set::<u32>::empty() || filter.contains(pid)),
{
}

/// Under a filter that is not empty, the calls of a process that it does not
/// list leave no trace.
pub proof fn law_filter_keeps_out_unlisted_processes(kernel: Kernel, path: ProbePath)
    requires
        kernel.filter != Set::<u32>::empty(),
        !kernel.filter.contains(task_pid(kernel.task)),
    ensures
        run(kernel, start_of(path), MAX_ACTIONS as nat) == (ProbeState::Finished, kernel),
{
    law_probe_records_the_call(kernel, path);
}

/// An empty filter is no filter: what a probe puts down is what it would put down
/// for a process that is listed.
pub proof fn law_empty_filter_tracks_all_processes(
    kernel: Kernel,
    listing: Set<u32>,
    path: ProbePath,
)
    requires
        kernel.filter == Set::<u32>::empty(),
        listing.contains(task_pid(kernel.task)),
    ensures
        kernel.observed(path) == (Kernel { filter: listing, ..kernel }).observed(path),
{
}

/// The totals once a list of transfers is put down, one after the other, each
/// under the name of its process.
pub open spec fn totals_after(
    totals: Map<TrafficKey, TrafficValue>,
    ts: Seq<(Transfer, [u8; 16])>,
) -> Map<TrafficKey, TrafficValue>
    decreases ts.len(),
{
    if ts.len() == 0 {
        totals
    } else {
        let before = totals_after(totals, ts.drop_last());
        let (t, comm) = ts.last();
        before.insert(t.key(), added(lookup(before, t.key()), t.bytes, t.direction, comm))
    }
}

/// The bytes that a list of transfers has for a key in one direction.
pub open spec fn transferred(
    ts: Seq<(Transfer, [u8; 16])>,
    key: TrafficKey,
    dir: Direction,
) -> int
    decreases ts.len(),
{
    if ts.len() == 0 {
        0
    } else {
        transferred(ts.drop_last(), key, dir) + if ts.last().0.key() == key
            && ts.last().0.direction == dir {
            ts.last().0.bytes as int
        } else {
            0
        }
    }
}

/// What the totals count for a key in one direction.
pub open spec fn counted(
    totals: Map<TrafficKey, TrafficValue>,
    key: TrafficKey,
    dir: Direction,
) -> int {
    match lookup(totals, key) {
        Some(v) => match dir {
            Direction::Rx => v.rx_bytes as int,
            Direction::Tx => v.tx_bytes as int,
        },
        None => 0,
    }
}

/// Running totals run: over any number of transfers, the totals of a key grow by
/// exactly the bytes that were transferred, in each direction.
pub proof fn law_running_totals_add_up(
    totals: Map<TrafficKey, TrafficValue>,
    ts: Seq<(Transfer, [u8; 16])>,
    key: TrafficKey,
    dir: Direction,
)
    requires
        counted(totals, key, dir) + transferred(ts, key, dir) <= u64::MAX,
    ensures
        counted(totals_after(totals, ts), key, dir) == counted(totals, key, dir) + transferred(
            ts,
            key,
            dir,
        ),
    decreases ts.len(),
{
    if ts.len() > 0 {
        law_running_totals_add_up(totals, ts.drop_last(), key, dir);
    }
}

/// The bytes of a call that go one way.
pub open spec fn bytes_of(direction: Direction, bytes: u64, dir: Direction) -> int {
    if direction == dir {
        bytes as int
    } else {
        0
    }
}

/// Byte counts are added, not overwritten: an update adds exactly the bytes of its
/// call to what the totals count by then, whether or not the key was there when
/// it was looked up, and leaves the name of a key that is there as it is. Left
/// out are a key that has gone since, and a full map.
pub proof fn law_updates_add_their_bytes(
    kernel: Kernel,
    key: TrafficKey,
    looked_up: Option<TrafficValue>,
    bytes: u64,
    direction: Direction,
    comm: [u8; 16],
    dir: Direction,
)
    requires
        looked_up is Some ==> kernel.totals.dom().contains(key),
        kernel.totals.dom().contains(key) || kernel.room_for_key,
        counted(kernel.totals, key, dir) + bytes_of(direction, bytes, dir) <= u64::MAX,
    ensures
        ({
            let after = kernel.with_update(key, update_for(looked_up, bytes, direction, comm));
            &&& counted(after.totals, key, dir) == counted(kernel.totals, key, dir) + bytes_of(
                direction,
                bytes,
                dir,
            )
            &&& after.totals.dom() == kernel.totals.dom().insert(key)
            &&& after.totals[key].comm == if kernel.totals.dom().contains(key) {
                kernel.totals[key].comm
            } else {
                comm
            }
        }),
{
    let after = kernel.with_update(key, update_for(looked_up, bytes, direction, comm));
    assert(after.totals.dom() =~= kernel.totals.dom().insert(key));
}

/// Two calls that both find no totals for their key add up, and the name is that
/// of the one that was put down first.
pub proof fn law_first_inserts_add_up(
    kernel: Kernel,
    key: TrafficKey,
    first: (u64, Direction, [u8; 16]),
    second: (u64, Direction, [u8; 16]),
    dir: Direction,
)
    requires
        !kernel.totals.dom().contains(key),
        kernel.room_for_key,
        bytes_of(first.1, first.0, dir) + bytes_of(second.1, second.0, dir) <= u64::MAX,
    ensures
        ({
            let after = kernel.with_update(
                key,
                update_for(None, first.0, first.1, first.2),
            ).with_update(key, update_for(None, second.0, second.1, second.2));
            &&& counted(after.totals, key, dir) == bytes_of(first.1, first.0, dir) + bytes_of(
                second.1,
                second.0,
                dir,
            )
            &&& after.totals.dom().contains(key)
            &&& after.totals[key].comm == first.2
        }),
{
    law_updates_add_their_bytes(kernel, key, None, first.0, first.1, first.2, dir);
    let between = kernel.with_update(key, update_for(None, first.0, first.1, first.2));
    law_updates_add_their_bytes(between, key, None, second.0, second.1, second.2, dir);
}

/// The name that a key's totals carry is that of the process that was first put
/// down for it.
pub proof fn law_totals_keep_their_name(
    totals: Map<TrafficKey, TrafficValue>,
    ts: Seq<(Transfer, [u8; 16])>,
    key: TrafficKey,
)
    requires
        totals.dom().contains(key),
    ensures
        totals_after(totals, ts).dom().contains(key),
        totals_after(totals, ts)[key].comm == totals[key].comm,
    decreases ts.len(),
{
    if ts.len() > 0 {
        law_totals_keep_their_name(totals, ts.drop_last(), key);
    }
}

/// Four bytes are found again in the number that they make up.
proof fn lemma_digits_unique(a: Seq<u8>, b: Seq<u8>)
    requires
        a.len() == 4,
        b.len() == 4,
        a[0] + 0x100 * a[1] + 0x1_0000 * a[2] + 0x100_0000 * a[3] == b[0] + 0x100 * b[1] + 0x1_0000
            * b[2] + 0x100_0000 * b[3],
    ensures
        a == b,
{
    let p = a[1] + 0x100 * a[2] + 0x1_0000 * a[3];
    let q = b[1] + 0x100 * b[2] + 0x1_0000 * b[3];
    assert(a[0] + 0x100 * p == b[0] + 0x100 * q);
    assert(a[0] == b[0] && p == q);
    let r = a[2] + 0x100 * a[3];
    let s = b[2] + 0x100 * b[3];
    assert(a[1] + 0x100 * r == b[1] + 0x100 * s);
    assert(a[1] == b[1] && r == s);
    assert(a[2] == b[2] && a[3] == b[3]);
    assert(a =~= b);
}

/// A key that names what the key of a transfer names is that key.
proof fn lemma_key_of(t: Transfer, key: TrafficKey)
    requires
        key.pid == t.pid,
        key.remote_port == t.remote_port,
        key._pad == 0,
        match t.remote {
            Remote::V4(ip) => {
                &&& key.af == 2
                &&& forall|i: int| 0 <= i < 12 ==> #[trigger] key.remote_ip@[i] == 0
                &&& ip == key.remote_ip@[12] + 0x100 * key.remote_ip@[13] + 0x1_0000
                    * key.remote_ip@[14] + 0x100_0000 * key.remote_ip@[15]
            },
            Remote::V6(ip) => {
                &&& key.af == 10
                &&& key.remote_ip@ == ip@
            },
        },
    ensures
        key == t.key(),
{
    law_key_names_its_call(t);
    let own = t.key().remote_ip@;
    let given = key.remote_ip@;
    if t.remote is V4 {
        let a = own.subrange(12, 16);
        let b = given.subrange(12, 16);
        assert(a[0] == own[12] && a[1] == own[13] && a[2] == own[14] && a[3] == own[15]);
        assert(b[0] == given[12] && b[1] == given[13] && b[2] == given[14] && b[3] == given[15]);
        lemma_digits_unique(a, b);
        assert forall|i: int| 0 <= i < 16 implies own[i] == given[i] by {
            if i >= 12 {
                assert(a[i - 12] == b[i - 12]);
            }
        }
    }
    assert(own =~= given);
    assert(key.remote_ip =~= t.key().remote_ip);
}

/// Where the remote end of a call can be read in the kernel. `base` is the socket of
/// a TCP send, and the socket address of a UDP send, which the message header points
/// to. The port lies in memory as `hi`, then `lo`. A receive has no remote end.
pub open spec fn is_readable(
    kernel: Kernel,
    path: ProbePath,
    base: u64,
    hi: u8,
    lo: u8,
    addr: Seq<u8>,
) -> bool {
    let msg = kernel.args[1];
    match path {
        ProbePath::Receive => hi == 0 && lo == 0 && addr == seq![0u8, 0u8, 0u8, 0u8],
        ProbePath::TcpSend => {
            &&& addr.len() == 4
            &&& base + 12 <= u64::MAX
            &&& kernel.args.dom().contains(0) && kernel.args[0] == base
            &&& kernel.u32s.dom().contains(base) && kernel.u32s[base] == addr[0] + 0x100 * addr[1]
                + 0x1_0000 * addr[2] + 0x100_0000 * addr[3]
            &&& kernel.u16s.dom().contains((base + 12) as u64) && kernel.u16s[(base + 12) as u64]
                == hi + 0x100 * lo
        },
        ProbePath::UdpSend => {
            &&& addr.len() == 4
            &&& base + 4 <= u64::MAX && base != 0
            &&& kernel.args.dom().contains(1) && kernel.u64s.dom().contains(msg)
                && kernel.u64s[msg] == base
            &&& kernel.u16s.dom().contains((base + 2) as u64) && kernel.u16s[(base + 2) as u64]
                == hi + 0x100 * lo
            &&& kernel.u32s.dom().contains((base + 4) as u64) && kernel.u32s[(base + 4) as u64]
                == addr[0] + 0x100 * addr[1] + 0x1_0000 * addr[2] + 0x100_0000 * addr[3]
            &&& addr != seq![0u8, 0u8, 0u8, 0u8]
        },
        ProbePath::Udp6Send => {
            &&& addr.len() == 16
            &&& base + 8 <= u64::MAX && base != 0
            &&& kernel.args.dom().contains(1) && kernel.u64s.dom().contains(msg)
                && kernel.u64s[msg] == base
            &&& kernel.u16s.dom().contains(base) && kernel.u16s[base] == 10
            &&& kernel.u16s.dom().contains((base + 2) as u64) && kernel.u16s[(base + 2) as u64]
                == hi + 0x100 * lo
            &&& kernel.addrs.dom().contains((base + 8) as u64) && kernel.addrs[(base + 8) as u64]@
                == addr
            &&& exists|i: int| 0 <= i < 16 && #[trigger] addr[i] != 0
            &&& addr[10] == 255 && addr[11] == 255 ==> exists|i: int|
                0 <= i < 10 && #[trigger] addr[i] != 0
        },
    }
}

proof fn lemma_readable_is_remote(
    kernel: Kernel,
    path: ProbePath,
    base: u64,
    hi: u8,
    lo: u8,
    addr: Seq<u8>,
) -> (remote: Remote)
    requires
        is_readable(kernel, path, base, hi, lo, addr),
    ensures
        kernel.remote(path) == Some((remote, (256 * hi + lo) as u16)),
        match remote {
            Remote::V4(ip) => path != ProbePath::Udp6Send && addr.len() == 4 && ip == addr[0]
                + 0x100 * addr[1] + 0x1_0000 * addr[2] + 0x100_0000 * addr[3],
            Remote::V6(ip) => path == ProbePath::Udp6Send && ip@ == addr,
        },
{
    law_port_is_read_in_network_order(hi, lo, (hi + 0x100 * lo) as u16);
    match path {
        ProbePath::Receive => {},
        ProbePath::TcpSend => {},
        ProbePath::UdpSend => {
            if kernel.u32s[(base + 4) as u64] == 0 {
                assert(addr =~= seq![0u8, 0u8, 0u8, 0u8]);
            }
        },
        ProbePath::Udp6Send => {
            let ip = kernel.addrs[(base + 8) as u64];
            let i = choose|i: int| 0 <= i < 16 && #[trigger] addr[i] != 0;
            law_ipv6_destinations(ip, i);
            if addr[10] == 255 && addr[11] == 255 {
                let j = choose|j: int| 0 <= j < 10 && #[trigger] addr[j] != 0;
                law_ipv6_destinations(ip, j);
            }
        },
    }
    (kernel.remote(path)->0).0
}

/// Each call of a tracked process that transfers bytes and whose remote end can be
/// read is put down, whole and once, and nothing else is: its bytes are added to the
/// counter of their direction under the key of the process and the remote end, and
/// one event says the same. The bytes of a send are its size, the third argument;
/// those of a receive are what was returned. The process is the upper half of the
/// task's ids. Left out are a map or a ring buffer that is full, a counter that runs
/// over, and an address beyond memory.
pub proof fn law_call_is_put_down(
    kernel: Kernel,
    path: ProbePath,
    bytes: u64,
    base: u64,
    hi: u8,
    lo: u8,
    addr: Seq<u8>,
    key: TrafficKey,
)
    requires
        bytes > 0,
        match path {
            ProbePath::Receive => kernel.returned is Some && kernel.returned->0 == bytes,
            _ => kernel.args.dom().contains(2) && kernel.args[2] == bytes,
        },
        key.pid == kernel.task / 0x1_0000_0000,
        kernel.filter == Set::<u32>::empty() || kernel.filter.contains(key.pid),
        is_readable(kernel, path, base, hi, lo, addr),
        key.remote_port == 256 * hi + lo,
        key._pad == 0,
        path == ProbePath::Udp6Send ==> key.af == 10 && key.remote_ip@ == addr,
        path != ProbePath::Udp6Send ==> key.af == 2 && key.remote_ip@.subrange(12, 16) == addr
            && forall|i: int| 0 <= i < 12 ==> #[trigger] key.remote_ip@[i] == 0,
        kernel.totals.dom().contains(key) || kernel.room_for_key,
        kernel.totals.dom().contains(key) ==> kernel.totals[key].rx_bytes + bytes <= u64::MAX
            && kernel.totals[key].tx_bytes + bytes <= u64::MAX,
        kernel.room_for_event,
    ensures
        ({
            let end = run(kernel, start_of(path), MAX_ACTIONS as nat);
            let after = end.1;
            let rx: int = if path == ProbePath::Receive {
                bytes as int
            } else {
                0
            };
            let tx: int = if path == ProbePath::Receive {
                0
            } else {
                bytes as int
            };
            let known = kernel.totals.dom().contains(key);
            let ev = after.events.last();
            &&& end.0 == ProbeState::Finished
            &&& after.totals.dom() == kernel.totals.dom().insert(key)
            &&& forall|other: TrafficKey|
                other != key && kernel.totals.dom().contains(other)
                    ==> #[trigger] after.totals[other] == kernel.totals[other]
            &&& known ==> {
                &&& after.totals[key].rx_bytes == kernel.totals[key].rx_bytes + rx
                &&& after.totals[key].tx_bytes == kernel.totals[key].tx_bytes + tx
                &&& after.totals[key].comm == kernel.totals[key].comm
            }
            &&& !known ==> {
                &&& after.totals[key].rx_bytes == rx
                &&& after.totals[key].tx_bytes == tx
                &&& after.totals[key].comm == kernel.comm
            }
            &&& after.events.len() == kernel.events.len() + 1
            &&& after.events.drop_last() == kernel.events
            &&& ev.flow() == key.flow()
            &&& ev.direction == if path == ProbePath::Receive {
                0u8
            } else {
                1u8
            }
            &&& bytes <= u32::MAX ==> ev.bytes == bytes
        }),
{
    law_probe_records_the_call(kernel, path);
    let remote = lemma_readable_is_remote(kernel, path, base, hi, lo, addr);
    let t = Transfer {
        pid: key.pid,
        bytes,
        direction: direction_of(path),
        remote,
        remote_port: key.remote_port,
    };
    if path != ProbePath::Udp6Send {
        let field = key.remote_ip@.subrange(12, 16);
        assert(field[0] == key.remote_ip@[12] && field[1] == key.remote_ip@[13] && field[2]
            == key.remote_ip@[14] && field[3] == key.remote_ip@[15]);
    }
    lemma_key_of(t, key);
    law_totals_and_event_name_the_same_flow(t);
    law_event_names_its_call(t);
    law_event_says_the_bytes_of_its_call(t);
    assert(kernel.observed(path) == Some(t));
    lemma_recorded(kernel, t, key);
}

/// What a recorded transfer leaves in the maps.
proof fn lemma_recorded(kernel: Kernel, t: Transfer, key: TrafficKey)
    requires
        key == t.key(),
        kernel.totals.dom().contains(key) || kernel.room_for_key,
        kernel.room_for_event,
    ensures
        ({
            let after = kernel.recorded(t);
            &&& after.totals == kernel.totals.insert(
                key,
                added(lookup(kernel.totals, key), t.bytes, t.direction, kernel.comm),
            )
            &&& after.totals.dom() == kernel.totals.dom().insert(key)
            &&& after.events == kernel.events.push(t.event())
            &&& after.events.drop_last() == kernel.events
        }),
{
    let after = kernel.recorded(t);
    assert(after.totals.dom() =~= kernel.totals.dom().insert(key));
    assert(after.events.drop_last() =~= kernel.events);
}

/// A call leaves the maps as they were where it transfers nothing, where a filter
/// that is not empty does not list its process, or where its remote end cannot be
/// read or is no destination of its family.
pub proof fn law_call_leaves_no_trace(kernel: Kernel, path: ProbePath)
    requires
        ({
            let pid = (kernel.task / 0x1_0000_0000) as u32;
            let sk = kernel.args[0];
            let msg = kernel.args[1];
            let name = kernel.u64s[msg];
            ||| kernel.filter != Set::<u32>::empty() && !kernel.filter.contains(pid)
            ||| match path {
                ProbePath::Receive => kernel.returned is None || kernel.returned->0 <= 0,
                _ => !kernel.args.dom().contains(2) || kernel.args[2] == 0,
            }
            ||| path == ProbePath::TcpSend && {
                ||| !kernel.args.dom().contains(0)
                ||| !kernel.u32s.dom().contains(sk)
                ||| sk + 12 <= u64::MAX && !kernel.u16s.dom().contains((sk + 12) as u64)
            }
            ||| (path == ProbePath::UdpSend || path == ProbePath::Udp6Send) && {
                ||| !kernel.args.dom().contains(1)
                ||| !kernel.u64s.dom().contains(msg)
                ||| name == 0
                ||| name + 2 <= u64::MAX && !kernel.u16s.dom().contains((name + 2) as u64)
            }
            ||| path == ProbePath::UdpSend && name + 4 <= u64::MAX && {
                ||| !kernel.u32s.dom().contains((name + 4) as u64)
                ||| kernel.u32s[(name + 4) as u64] == 0
            }
            ||| path == ProbePath::Udp6Send && {
                ||| !kernel.u16s.dom().contains(name)
                ||| kernel.u16s[name] != 10
            }
            ||| path == ProbePath::Udp6Send && name + 8 <= u64::MAX && {
                ||| !kernel.addrs.dom().contains((name + 8) as u64)
                ||| kernel.addrs[(name + 8) as u64]@ == Seq::new(16, |i: int| 0u8)
                ||| kernel.addrs[(name + 8) as u64]@.take(12) == seq![
                    0u8, 0u8, 0u8, 0u8, 0u8, 0u8, 0u8, 0u8, 0u8, 0u8, 255u8, 255u8,
                ]
            }
        }),
    ensures
        run(kernel, start_of(path), MAX_ACTIONS as nat) == (ProbeState::Finished, kernel),
{
    law_probe_records_the_call(kernel, path);
    let name = kernel.u64s[kernel.args[1]];
    if path == ProbePath::Udp6Send && name + 8 <= u64::MAX && kernel.addrs.dom().contains(
        (name + 8) as u64,
    ) {
        let ip = kernel.addrs[(name + 8) as u64];
        let head = seq![0u8, 0u8, 0u8, 0u8, 0u8, 0u8, 0u8, 0u8, 0u8, 0u8, 255u8, 255u8];
        law_ipv6_destinations(ip, 0);
        if ip@.take(12) == head {
            assert forall|i: int| 0 <= i < 12 implies ip@[i] == head[i] by {
                assert(ip@.take(12)[i] == ip@[i]);
            }
            assert(ip@[10] == head[10] && ip@[11] == head[11]);
            assert(ip@.take(10) =~= Seq::new(10, |j: int| 0u8));
        }
    }
    assert(kernel.observed(path) is None);
}

/// A probe takes whatever the kernel answers to what it wants done, while the next
/// address that it would read is within memory, and comes to a state of which the
/// same holds.
pub proof fn law_answers_are_taken(kernel: Kernel, state: ProbeState)
    requires
        state != ProbeState::Finished,
        match state {
            ProbeState::SockAddr { sk, .. } => sk + 12 <= u64::MAX,
            ProbeState::MsgName { msg, .. } => kernel.u64s.dom().contains(msg)
                ==> kernel.u64s[msg] + 8 <= u64::MAX,
            ProbeState::SinPort { name, .. } => name + 4 <= u64::MAX,
            ProbeState::Sin6Family { name, .. } => name + 8 <= u64::MAX,
            ProbeState::Sin6Port { name, .. } => name + 8 <= u64::MAX,
            _ => true,
        },
    ensures
        state.takes(kernel.reply(state.wanted())),
        state.next(kernel.reply(state.wanted())).wf(),
{
}

} // verus!
