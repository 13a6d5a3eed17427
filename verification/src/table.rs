//! The table of running totals, one row per flow.
//!
//! Two sources feed the table: single events, as they happen, and the running
//! totals that the kernel side keeps. The bytes of an event that comes before the
//! scan that shows them count once; behind that scan they count again. Rows of
//! quiet flows are evicted; what a flow has transferred in its lifetime is kept
//! for good. Points in time and spans are nanoseconds, counted from a start that
//! the caller chooses.

use vstd::prelude::*;

use crate::flow::{FlowKey, IpAddr};
use crate::flow_map::FlowMap;
use crate::ranking::{rank, Ranked};
use crate::text::{trim, trimmed};
use crate::traffic::{comm_text, TrafficEvent, TrafficKey, TrafficValue, DIRECTION_TX};

verus! {

/// One (pid, remote_addr, remote_port) traffic record with running totals.
#[derive(Debug)]
pub struct EbpfTrafficEntry {
    pub pid: u32,
    pub comm: String,
    pub remote_addr: IpAddr,
    pub remote_port: u16,
    pub rx_bytes: u64,
    pub tx_bytes: u64,
    /// Bytes in the last collection interval (set by `snapshot()`).
    pub rx_delta: u64,
    pub tx_delta: u64,
    pub last_seen: u128,
}

/// What a traffic record says.
#[verifier::ext_equal]
pub struct Row {
    pub pid: u32,
    pub comm: Seq<char>,
    pub remote_addr: IpAddr,
    pub remote_port: u16,
    pub rx_bytes: u64,
    pub tx_bytes: u64,
    pub rx_delta: u64,
    pub tx_delta: u64,
    pub last_seen: u128,
}

impl Row {
    /// The row of a flow of which nothing has been counted.
    pub open spec fn fresh(k: FlowKey, comm: Seq<char>, now: u128) -> Row {
        Row {
            pid: k.pid,
            comm,
            remote_addr: k.remote_addr,
            remote_port: k.remote_port,
            rx_bytes: 0,
            tx_bytes: 0,
            rx_delta: 0,
            tx_delta: 0,
            last_seen: now,
        }
    }

    pub open spec fn flow(self) -> FlowKey {
        FlowKey {
            pid: self.pid,
            remote_addr: self.remote_addr,
            remote_port: self.remote_port,
        }
    }

    /// Bytes in both directions together.
    pub open spec fn total(self) -> int {
        self.rx_bytes + self.tx_bytes
    }
}

impl View for EbpfTrafficEntry {
    type V = Row;

    open spec fn view(&self) -> Row {
        Row {
            pid: self.pid,
            comm: self.comm@,
            remote_addr: self.remote_addr,
            remote_port: self.remote_port,
            rx_bytes: self.rx_bytes,
            tx_bytes: self.tx_bytes,
            rx_delta: self.rx_delta,
            tx_delta: self.tx_delta,
            last_seen: self.last_seen,
        }
    }
}

impl EbpfTrafficEntry {
    /// A record that counts nothing yet.
    pub fn new(
        pid: u32,
        comm: String,
        remote_addr: IpAddr,
        remote_port: u16,
        now: u128,
    ) -> (e: EbpfTrafficEntry)
        ensures
            e@ == Row::fresh(FlowKey { pid, remote_addr, remote_port }, comm@, now),
            e.pid == pid,
            e.comm@ == comm@,
            e.remote_addr == remote_addr,
            e.remote_port == remote_port,
            e.rx_bytes == 0,
            e.tx_bytes == 0,
            e.rx_delta == 0,
            e.tx_delta == 0,
            e.last_seen == now,
    {
        EbpfTrafficEntry {
            pid,
            comm,
            remote_addr,
            remote_port,
            rx_bytes: 0,
            tx_bytes: 0,
            rx_delta: 0,
            tx_delta: 0,
            last_seen: now,
        }
    }
}

impl Clone for EbpfTrafficEntry {
    fn clone(&self) -> (e: EbpfTrafficEntry)
        ensures
            e@ == self@,
    {
        EbpfTrafficEntry {
            pid: self.pid,
            comm: self.comm.clone(),
            remote_addr: self.remote_addr,
            remote_port: self.remote_port,
            rx_bytes: self.rx_bytes,
            tx_bytes: self.tx_bytes,
            rx_delta: self.rx_delta,
            tx_delta: self.tx_delta,
            last_seen: self.last_seen,
        }
    }
}

/// What a map of counts has at a flow; zero where it has nothing.
pub open spec fn count(m: Map<FlowKey, u64>, k: FlowKey) -> u64 {
    if m.dom().contains(k) {
        m[k]
    } else {
        0
    }
}

/// By how much `a` exceeds `b`.
pub open spec fn excess(a: u64, b: u64) -> u64 {
    if a > b {
        (a - b) as u64
    } else {
        0
    }
}

/// The bytes that a counter has counted since it was last seen. One that went
/// back has started over from zero.
pub open spec fn counter_growth(val: u64, last: u64) -> u64 {
    if val < last {
        val
    } else {
        (val - last) as u64
    }
}

/// Everything the table knows.
#[verifier::ext_equal]
pub struct TableState {
    /// The live rows.
    pub entries: Map<FlowKey, Row>,
    /// The lifetime totals at the last snapshot.
    pub prev_rx: Map<FlowKey, u64>,
    pub prev_tx: Map<FlowKey, u64>,
    /// Totals since the table was made; never reset.
    pub lifetime_rx: Map<FlowKey, u64>,
    pub lifetime_tx: Map<FlowKey, u64>,
    /// The kernel's totals as last seen.
    pub last_kernel_rx: Map<FlowKey, u64>,
    pub last_kernel_tx: Map<FlowKey, u64>,
    /// The bytes of events that no growth of the kernel's totals has covered since.
    pub unseen_rx: Map<FlowKey, u64>,
    pub unseen_tx: Map<FlowKey, u64>,
    /// Process names; they outlive the rows.
    pub comm_cache: Map<FlowKey, Seq<char>>,
}

impl TableState {
    pub open spec fn empty() -> TableState {
        TableState {
            entries: Map::empty(),
            prev_rx: Map::empty(),
            prev_tx: Map::empty(),
            lifetime_rx: Map::empty(),
            lifetime_tx: Map::empty(),
            last_kernel_rx: Map::empty(),
            last_kernel_tx: Map::empty(),
            unseen_rx: Map::empty(),
            unseen_tx: Map::empty(),
            comm_cache: Map::empty(),
        }
    }

    /// What holds of one flow. A row stands at its own flow and has a cached
    /// name, and counts no more than the lifetime total. The lifetime total holds
    /// what the kernel counted and, on top, the outstanding bytes of events. It
    /// has not fallen since the last snapshot.
    pub open spec fn flow_wf(self, k: FlowKey) -> bool {
        &&& self.entries.dom().contains(k) ==> {
            &&& self.entries[k].flow() == k
            &&& self.comm_cache.dom().contains(k)
            &&& self.entries[k].rx_bytes <= self.life_rx(k)
            &&& self.entries[k].tx_bytes <= self.life_tx(k)
        }
        &&& self.kernel_rx(k) + self.pending_rx(k) <= self.life_rx(k)
        &&& self.kernel_tx(k) + self.pending_tx(k) <= self.life_tx(k)
        &&& self.shown_rx(k) <= self.life_rx(k)
        &&& self.shown_tx(k) <= self.life_tx(k)
    }

    /// Every flow is in order.
    pub open spec fn wf(self) -> bool {
        forall|k: FlowKey|
            #![trigger self.flow_wf(k)]
            #![trigger self.entries.dom().contains(k)]
            self.flow_wf(k)
    }

    pub open spec fn is_live(self, k: FlowKey) -> bool {
        self.entries.dom().contains(k)
    }

    pub open spec fn life_rx(self, k: FlowKey) -> u64 {
        count(self.lifetime_rx, k)
    }

    pub open spec fn life_tx(self, k: FlowKey) -> u64 {
        count(self.lifetime_tx, k)
    }

    /// The kernel's total as last seen.
    pub open spec fn kernel_rx(self, k: FlowKey) -> u64 {
        count(self.last_kernel_rx, k)
    }

    pub open spec fn kernel_tx(self, k: FlowKey) -> u64 {
        count(self.last_kernel_tx, k)
    }

    /// The outstanding bytes of events: those that no growth of the kernel's total
    /// has covered since. The next growth is taken to be these bytes, as it is
    /// where an event arrives before the scan that shows its bytes.
    pub open spec fn pending_rx(self, k: FlowKey) -> u64 {
        count(self.unseen_rx, k)
    }

    pub open spec fn pending_tx(self, k: FlowKey) -> u64 {
        count(self.unseen_tx, k)
    }

    /// The lifetime total at the last snapshot.
    pub open spec fn shown_rx(self, k: FlowKey) -> u64 {
        count(self.prev_rx, k)
    }

    pub open spec fn shown_tx(self, k: FlowKey) -> u64 {
        count(self.prev_tx, k)
    }

    /// The cached name of a flow, or nothing where there is none.
    pub open spec fn cached_comm(self, k: FlowKey) -> Seq<char> {
        if self.comm_cache.dom().contains(k) {
            self.comm_cache[k]
        } else {
            Seq::empty()
        }
    }

    /// The live row of a flow, or a new one.
    pub open spec fn row_or_fresh(self, k: FlowKey, comm: Seq<char>, now: u128) -> Row {
        if self.is_live(k) {
            self.entries[k]
        } else {
            Row::fresh(k, comm, now)
        }
    }

    /// The bytes that the kernel has counted since its total was last seen.
    pub open spec fn kernel_rx_growth(self, key: TrafficKey, val: TrafficValue) -> u64 {
        counter_growth(val.rx_bytes, self.kernel_rx(key.flow()))
    }

    pub open spec fn kernel_tx_growth(self, key: TrafficKey, val: TrafficValue) -> u64 {
        counter_growth(val.tx_bytes, self.kernel_tx(key.flow()))
    }

    /// The bytes that a kernel total brings: its growth, but for the outstanding
    /// bytes of events.
    pub open spec fn kernel_rx_news(self, key: TrafficKey, val: TrafficValue) -> u64 {
        excess(self.kernel_rx_growth(key, val), self.pending_rx(key.flow()))
    }

    pub open spec fn kernel_tx_news(self, key: TrafficKey, val: TrafficValue) -> u64 {
        excess(self.kernel_tx_growth(key, val), self.pending_tx(key.flow()))
    }

    /// The lifetime totals can take what the kernel's totals bring.
    pub open spec fn can_upsert(self, key: TrafficKey, val: TrafficValue) -> bool {
        &&& self.life_rx(key.flow()) + self.kernel_rx_news(key, val) <= u64::MAX
        &&& self.life_tx(key.flow()) + self.kernel_tx_news(key, val) <= u64::MAX
    }

    /// The state once the kernel's totals for a key have been taken in: the
    /// lifetime totals grow by what is new, the row counts what the kernel does.
    pub open spec fn upserted(self, key: TrafficKey, val: TrafficValue, now: u128) -> TableState {
        let k = key.flow();
        let comm = comm_text(val.comm@);
        TableState {
            last_kernel_rx: self.last_kernel_rx.insert(k, val.rx_bytes),
            last_kernel_tx: self.last_kernel_tx.insert(k, val.tx_bytes),
            lifetime_rx: self.lifetime_rx.insert(
                k,
                (self.life_rx(k) + self.kernel_rx_news(key, val)) as u64,
            ),
            lifetime_tx: self.lifetime_tx.insert(
                k,
                (self.life_tx(k) + self.kernel_tx_news(key, val)) as u64,
            ),
            unseen_rx: self.unseen_rx.insert(
                k,
                excess(self.pending_rx(k), self.kernel_rx_growth(key, val)),
            ),
            unseen_tx: self.unseen_tx.insert(
                k,
                excess(self.pending_tx(k), self.kernel_tx_growth(key, val)),
            ),
            comm_cache: self.comm_cache.insert(k, comm),
            entries: self.entries.insert(
                k,
                Row {
                    rx_bytes: val.rx_bytes,
                    tx_bytes: val.tx_bytes,
                    last_seen: now,
                    ..self.row_or_fresh(k, comm, now)
                },
            ),
            ..self
        }
    }

    /// The state once the kernel has dropped its totals for a key: what it counts
    /// from now on, it counts from zero.
    pub open spec fn released(self, key: TrafficKey) -> TableState {
        let k = key.flow();
        TableState {
            last_kernel_rx: self.last_kernel_rx.insert(k, 0),
            last_kernel_tx: self.last_kernel_tx.insert(k, 0),
            unseen_rx: self.unseen_rx.insert(k, 0),
            unseen_tx: self.unseen_tx.insert(k, 0),
            ..self
        }
    }

    /// The lifetime total of the event's flow can take its bytes.
    pub open spec fn can_apply(self, ev: TrafficEvent) -> bool {
        if ev.is_tx() {
            self.life_tx(ev.flow()) + ev.bytes <= u64::MAX
        } else {
            self.life_rx(ev.flow()) + ev.bytes <= u64::MAX
        }
    }

    /// The name under which an event's process is put down: the text of its
    /// comm file, trimmed, or where the file cannot be read, the cached name.
    pub open spec fn comm_for(self, k: FlowKey, file: Option<Seq<char>>) -> Seq<char> {
        match file {
            Some(text) => trimmed(text),
            None => self.cached_comm(k),
        }
    }

    /// The state once an event has been counted.
    pub open spec fn with_event(
        self,
        ev: TrafficEvent,
        comm_file: Option<Seq<char>>,
        now: u128,
    ) -> TableState {
        let k = ev.flow();
        let comm = self.comm_for(k, comm_file);
        let row = self.row_or_fresh(k, comm, now);
        TableState {
            lifetime_tx: if ev.is_tx() {
                self.lifetime_tx.insert(k, (self.life_tx(k) + ev.bytes) as u64)
            } else {
                self.lifetime_tx
            },
            lifetime_rx: if ev.is_tx() {
                self.lifetime_rx
            } else {
                self.lifetime_rx.insert(k, (self.life_rx(k) + ev.bytes) as u64)
            },
            unseen_tx: if ev.is_tx() {
                self.unseen_tx.insert(k, (self.pending_tx(k) + ev.bytes) as u64)
            } else {
                self.unseen_tx
            },
            unseen_rx: if ev.is_tx() {
                self.unseen_rx
            } else {
                self.unseen_rx.insert(k, (self.pending_rx(k) + ev.bytes) as u64)
            },
            comm_cache: if self.is_live(k) {
                self.comm_cache
            } else {
                self.comm_cache.insert(k, comm)
            },
            entries: self.entries.insert(
                k,
                if ev.is_tx() {
                    Row { tx_bytes: (row.tx_bytes + ev.bytes) as u64, last_seen: now, ..row }
                } else {
                    Row { rx_bytes: (row.rx_bytes + ev.bytes) as u64, last_seen: now, ..row }
                },
            ),
            ..self
        }
    }

    /// Whether a row has been seen less than `ttl` before `now`.
    pub open spec fn is_fresh(row: Row, ttl: u128, now: u128) -> bool {
        if now > row.last_seen {
            now - row.last_seen < ttl
        } else {
            ttl > 0
        }
    }

    /// The state once quiet rows are gone; nothing else goes.
    pub open spec fn evicted(self, ttl: u128, now: u128) -> TableState {
        TableState {
            entries: Map::new(
                |k: FlowKey| self.is_live(k) && TableState::is_fresh(self.entries[k], ttl, now),
                |k: FlowKey| self.entries[k],
            ),
            ..self
        }
    }

    /// A live row as a snapshot shows it: lifetime totals, and by how much they
    /// have grown since the last snapshot.
    pub open spec fn refreshed_row(self, k: FlowKey) -> Row {
        Row {
            rx_delta: (self.life_rx(k) - self.shown_rx(k)) as u64,
            tx_delta: (self.life_tx(k) - self.shown_tx(k)) as u64,
            rx_bytes: self.life_rx(k),
            tx_bytes: self.life_tx(k),
            ..self.entries[k]
        }
    }

    /// The row of a flow that is no longer live: its lifetime totals under its
    /// cached name.
    pub open spec fn departed_row(self, k: FlowKey, now: u128) -> Row {
        Row {
            rx_bytes: self.life_rx(k),
            tx_bytes: self.life_tx(k),
            ..Row::fresh(k, self.cached_comm(k), now)
        }
    }

    /// Whether a snapshot has a row for the flow: it is live, or it has lifetime
    /// bytes.
    pub open spec fn is_reported(self, k: FlowKey) -> bool {
        self.is_live(k) || self.life_rx(k) + self.life_tx(k) != 0
    }

    /// The row that a snapshot has for a flow.
    pub open spec fn reported_row(self, k: FlowKey, now: u128) -> Row {
        if self.is_live(k) {
            self.refreshed_row(k)
        } else {
            self.departed_row(k, now)
        }
    }

    /// The state once the rows of the given live flows have been refreshed.
    pub open spec fn refreshed(self, done: Set<FlowKey>) -> TableState {
        TableState {
            entries: Map::new(
                |k: FlowKey| self.is_live(k),
                |k: FlowKey|
                    if done.contains(k) {
                        self.refreshed_row(k)
                    } else {
                        self.entries[k]
                    },
            ),
            ..self
        }
    }

    /// The state after a snapshot.
    pub open spec fn snapshotted(self) -> TableState {
        TableState {
            prev_rx: self.lifetime_rx,
            prev_tx: self.lifetime_tx,
            ..self.refreshed(self.entries.dom())
        }
    }

    /// The totals that a snapshot forms fit in a count: that of every departed
    /// flow, and where there are two rows to compare, that of every row.
    pub open spec fn can_snapshot(self) -> bool {
        forall|k: FlowKey| #[trigger]
            self.is_reported(k) && (!self.is_live(k) || self.has_other(k)) ==> self.reported_total(
                k,
            ) <= u64::MAX
    }

    /// Whether a snapshot has a row besides that of the flow.
    pub open spec fn has_other(self, k: FlowKey) -> bool {
        exists|other: FlowKey| other != k && #[trigger] self.is_reported(other)
    }

    /// The total of the row that a snapshot has for a flow.
    pub open spec fn reported_total(self, k: FlowKey) -> int {
        self.reported_row(k, 0).total()
    }

    /// Whether `rows` is what a snapshot returns: one row for each reported
    /// flow, larger totals first, and live flows first among equal totals.
    pub open spec fn is_snapshot(self, rows: Seq<Row>, now: u128) -> bool {
        &&& forall|i: int|
            0 <= i < rows.len() ==> self.is_reported((#[trigger] rows[i]).flow()) && rows[i]
                == self.reported_row(rows[i].flow(), now)
        &&& forall|k: FlowKey| #[trigger]
            self.is_reported(k) ==> exists|i: int|
                0 <= i < rows.len() && (#[trigger] rows[i]).flow() == k
        &&& forall|i: int, j: int|
            0 <= i < j < rows.len() ==> {
                let a = #[trigger] rows[i];
                let b = #[trigger] rows[j];
                &&& a.flow() != b.flow()
                &&& a.total() >= b.total()
                &&& a.total() == b.total() && self.is_live(b.flow()) ==> self.is_live(a.flow())
            }
    }
}

impl TableState {
    /// Taking in the kernel's totals keeps the state well formed.
    pub proof fn lemma_upserted_wf(self, key: TrafficKey, val: TrafficValue, now: u128)
        requires
            self.wf(),
            self.can_upsert(key, val),
        ensures
            self.upserted(key, val, now).wf(),
    {
        assert forall|k: FlowKey| #[trigger] self.upserted(key, val, now).flow_wf(k) by {
            assert(self.flow_wf(k));
        }
    }

    /// Counting an event keeps the state well formed.
    pub proof fn lemma_with_event_wf(
        self,
        ev: TrafficEvent,
        comm_file: Option<Seq<char>>,
        now: u128,
    )
        requires
            self.wf(),
            self.can_apply(ev),
        ensures
            self.with_event(ev, comm_file, now).wf(),
    {
        assert forall|k: FlowKey| #[trigger] self.with_event(ev, comm_file, now).flow_wf(k) by {
            assert(self.flow_wf(k));
        }
    }

    /// Dropping a key in the kernel keeps the state well formed.
    pub proof fn lemma_released_wf(self, key: TrafficKey)
        requires
            self.wf(),
        ensures
            self.released(key).wf(),
    {
        assert forall|k: FlowKey| #[trigger] self.released(key).flow_wf(k) by {
            assert(self.flow_wf(k));
        }
    }

    /// An eviction keeps the state well formed.
    pub proof fn lemma_evicted_wf(self, ttl: u128, now: u128)
        requires
            self.wf(),
        ensures
            self.evicted(ttl, now).wf(),
    {
        assert forall|k: FlowKey| #[trigger] self.evicted(ttl, now).flow_wf(k) by {
            assert(self.flow_wf(k));
        }
    }

    /// Fewer rows are as well formed as all.
    proof fn lemma_fewer_rows_wf(self, fewer: TableState)
        requires
            self.wf(),
            fewer == (TableState { entries: fewer.entries, ..self }),
            forall|k: FlowKey| #[trigger]
                fewer.entries.dom().contains(k) ==> self.entries.dom().contains(k)
                    && fewer.entries[k] == self.entries[k],
        ensures
            fewer.wf(),
    {
        assert forall|k: FlowKey| #[trigger] fewer.flow_wf(k) by {
            assert(self.flow_wf(k));
        }
    }

    /// A snapshot keeps the state well formed.
    pub proof fn lemma_snapshotted_wf(self)
        requires
            self.wf(),
        ensures
            self.snapshotted().wf(),
    {
        assert forall|k: FlowKey| #[trigger] self.snapshotted().flow_wf(k) by {
            assert(self.flow_wf(k));
        }
    }

    /// So does refreshing some of the live rows.
    proof fn lemma_refreshed_wf(self, done: Set<FlowKey>)
        requires
            self.wf(),
        ensures
            self.refreshed(done).wf(),
    {
        assert forall|k: FlowKey| #[trigger] self.refreshed(done).flow_wf(k) by {
            assert(self.flow_wf(k));
        }
    }
}

/// Whether one of the items is of the flow.
spec fn covers(items: Seq<Ranked>, k: FlowKey) -> bool {
    exists|i: int| 0 <= i < items.len() && (#[trigger] items[i]).key == k
}

spec fn distinct_keys(items: Seq<Ranked>) -> bool {
    forall|i: int, j: int|
        0 <= i < j < items.len() ==> (#[trigger] items[i]).key != (#[trigger] items[j]).key
}

proof fn lemma_covers_push(items: Seq<Ranked>, item: Ranked)
    ensures
        forall|k: FlowKey| #[trigger]
            covers(items.push(item), k) <==> covers(items, k) || item.key == k,
        distinct_keys(items) && !covers(items, item.key) ==> distinct_keys(items.push(item)),
{
    let after = items.push(item);
    assert forall|k: FlowKey| #[trigger] covers(after, k) <==> covers(items, k) || item.key
        == k by {
        if covers(items, k) {
            let i = choose|i: int| 0 <= i < items.len() && (#[trigger] items[i]).key == k;
            assert(after[i].key == k);
        }
        if item.key == k {
            assert(after[items.len() as int].key == k);
        }
        if covers(after, k) && item.key != k {
            let i = choose|i: int| 0 <= i < after.len() && (#[trigger] after[i]).key == k;
            assert(items[i].key == k);
        }
    }
}

impl TableState {
    /// Whether an item stands for a reported flow, with its total.
    spec fn ranks(self, item: Ranked) -> bool {
        &&& self.is_reported(item.key)
        &&& item.live == self.is_live(item.key)
        &&& item.total == self.reported_total(item.key)
    }

    /// Whether the items stand for reported flows, each for another.
    spec fn ranks_all(self, items: Seq<Ranked>) -> bool {
        &&& forall|i: int| 0 <= i < items.len() ==> self.ranks(#[trigger] items[i])
        &&& distinct_keys(items)
    }

    /// Whether the items stand for the reported flows, each once.
    spec fn is_plan(self, items: Seq<Ranked>) -> bool {
        &&& self.ranks_all(items)
        &&& forall|k: FlowKey| #[trigger] self.is_reported(k) ==> covers(items, k)
    }

    /// Another order of the same items is a plan too.
    proof fn lemma_plan_reordered(self, items: Seq<Ranked>, out: Seq<Ranked>)
        requires
            self.is_plan(items),
            out.to_multiset() == items.to_multiset(),
        ensures
            self.is_plan(out),
    {
        broadcast use vstd::seq_lib::group_to_multiset_ensures;

        assert(items.no_duplicates());
        items.lemma_multiset_has_no_duplicates();
        out.lemma_multiset_has_no_duplicates_conv();
        assert forall|x: Ranked| #[trigger] out.contains(x) <==> items.contains(x) by {
            assert(out.contains(x) <==> out.to_multiset().count(x) > 0);
            assert(items.contains(x) <==> items.to_multiset().count(x) > 0);
        }
        assert forall|i: int| 0 <= i < out.len() implies self.ranks(#[trigger] out[i]) by {
            assert(out.contains(out[i]));
            let j = choose|j: int| 0 <= j < items.len() && items[j] == out[i];
            assert(self.ranks(items[j]));
        }
        assert forall|k: FlowKey| #[trigger] self.is_reported(k) implies covers(out, k) by {
            let j = choose|j: int| 0 <= j < items.len() && (#[trigger] items[j]).key == k;
            assert(items.contains(items[j]));
            assert(out.contains(items[j]));
            let i = choose|i: int| 0 <= i < out.len() && out[i] == items[j];
            assert(out[i].key == k);
        }
        assert forall|i: int, j: int| 0 <= i < j < out.len() implies (#[trigger] out[i]).key != (
        #[trigger] out[j]).key by {
            assert(out.contains(out[i]));
            assert(out.contains(out[j]));
            let p = choose|p: int| 0 <= p < items.len() && items[p] == out[i];
            let q = choose|q: int| 0 <= q < items.len() && items[q] == out[j];
            assert(out[i] != out[j]);
            assert(items[p].key != items[q].key);
        }
    }
}

/// The text of a file, where it could be read.
pub open spec fn file_text(file: Option<String>) -> Option<Seq<char>> {
    match file {
        Some(text) => Some(text@),
        None => None,
    }
}

/// The text of a file that could be read is the whole of it.
pub proof fn law_file_text_is_whole(text: String)
    ensures
        file_text(Some(text)) == Some(text@),
        file_text(None) is None,
{
}

/// What a list of traffic records says.
pub open spec fn rows_of(entries: Seq<EbpfTrafficEntry>) -> Seq<Row> {
    Seq::new(entries.len(), |i: int| entries[i]@)
}

/// Continuously updated traffic table.
pub struct EbpfTrafficTable {
    entries: FlowMap<EbpfTrafficEntry>,
    prev_rx: FlowMap<u64>,
    prev_tx: FlowMap<u64>,
    /// Monotonically-increasing totals since the table was made.
    /// Never reset; they survive eviction and resets of the kernel's map.
    lifetime_rx: FlowMap<u64>,
    lifetime_tx: FlowMap<u64>,
    /// Last kernel-map value seen per key, used to detect kernel-side resets.
    last_kernel_rx: FlowMap<u64>,
    last_kernel_tx: FlowMap<u64>,
    /// Event bytes that no growth of the kernel map's totals has covered since.
    unseen_rx: FlowMap<u64>,
    unseen_tx: FlowMap<u64>,
    /// Comm name cache; survives eviction so dead processes are still labelled.
    comm_cache: FlowMap<String>,
}

impl View for EbpfTrafficTable {
    type V = TableState;

    closed spec fn view(&self) -> TableState {
        TableState {
            entries: self.entries@,
            prev_rx: self.prev_rx@,
            prev_tx: self.prev_tx@,
            lifetime_rx: self.lifetime_rx@,
            lifetime_tx: self.lifetime_tx@,
            last_kernel_rx: self.last_kernel_rx@,
            last_kernel_tx: self.last_kernel_tx@,
            unseen_rx: self.unseen_rx@,
            unseen_tx: self.unseen_tx@,
            comm_cache: self.comm_cache@,
        }
    }
}

fn count_at(m: &FlowMap<u64>, k: &FlowKey) -> (n: u64)
    requires
        m.wf(),
    ensures
        n == count(m@, *k),
{
    match m.get(k) {
        Some(n) => *n,
        None => 0,
    }
}

fn excess_of(a: u64, b: u64) -> (d: u64)
    ensures
        d == excess(a, b),
{
    if a > b {
        a - b
    } else {
        0
    }
}

fn growth(val: u64, last: u64) -> (d: u64)
    ensures
        d == counter_growth(val, last),
{
    if val < last {
        val
    } else {
        val - last
    }
}

impl Default for EbpfTrafficTable {
    fn default() -> (t: EbpfTrafficTable)
        ensures
            t.wf(),
            t@ == TableState::empty(),
    {
        EbpfTrafficTable {
            entries: FlowMap::new(),
            prev_rx: FlowMap::new(),
            prev_tx: FlowMap::new(),
            lifetime_rx: FlowMap::new(),
            lifetime_tx: FlowMap::new(),
            last_kernel_rx: FlowMap::new(),
            last_kernel_tx: FlowMap::new(),
            unseen_rx: FlowMap::new(),
            unseen_tx: FlowMap::new(),
            comm_cache: FlowMap::new(),
        }
    }
}

/// The flows of a prefix, one flow longer.
proof fn lemma_prefix_set(keys: Seq<FlowKey>, i: int)
    requires
        0 <= i < keys.len(),
        keys.no_duplicates(),
    ensures
        !keys.take(i).to_set().contains(keys[i]),
        keys.take(i + 1).to_set() == keys.take(i).to_set().insert(keys[i]),
{
    let shorter = keys.take(i);
    let longer = keys.take(i + 1);
    assert(longer =~= shorter.push(keys[i]));
    if shorter.contains(keys[i]) {
        let j = choose|j: int| 0 <= j < shorter.len() && shorter[j] == keys[i];
        assert(keys[j] == keys[i]);
    }
    assert forall|q: FlowKey| #[trigger]
        longer.to_set().contains(q) <==> shorter.to_set().insert(keys[i]).contains(q) by {
        if longer.contains(q) && q != keys[i] {
            let j = choose|j: int| 0 <= j < longer.len() && longer[j] == q;
            assert(shorter[j] == q);
        }
        if shorter.contains(q) {
            let j = choose|j: int| 0 <= j < shorter.len() && shorter[j] == q;
            assert(longer[j] == q);
        }
        assert(longer[i] == keys[i]);
    }
    assert(longer.to_set() =~= shorter.to_set().insert(keys[i]));
}

impl EbpfTrafficTable {
    pub closed spec fn wf(&self) -> bool {
        &&& self.entries.wf()
        &&& self.prev_rx.wf()
        &&& self.prev_tx.wf()
        &&& self.lifetime_rx.wf()
        &&& self.lifetime_tx.wf()
        &&& self.last_kernel_rx.wf()
        &&& self.last_kernel_tx.wf()
        &&& self.unseen_rx.wf()
        &&& self.unseen_tx.wf()
        &&& self.comm_cache.wf()
        &&& self@.wf()
    }

    /// A well-formed table is in a well-formed state.
    pub proof fn lemma_wf(&self)
        requires
            self.wf(),
        ensures
            self@.wf(),
    {
    }

    /// Takes in the kernel's running totals for a key.
    pub fn upsert(&mut self, key: &TrafficKey, val: &TrafficValue, now: u128)
        requires
            old(self).wf(),
            old(self)@.can_upsert(*key, *val),
        ensures
            final(self).wf(),
            final(self)@ == old(self)@.upserted(*key, *val, now),
    {
        let k = key.flow_key();
        let rx_growth = growth(val.rx_bytes, count_at(&self.last_kernel_rx, &k));
        let tx_growth = growth(val.tx_bytes, count_at(&self.last_kernel_tx, &k));
        let rx_unseen = count_at(&self.unseen_rx, &k);
        let tx_unseen = count_at(&self.unseen_tx, &k);
        let life_rx = count_at(&self.lifetime_rx, &k);
        let life_tx = count_at(&self.lifetime_tx, &k);
        self.last_kernel_rx.insert(k, val.rx_bytes);
        self.last_kernel_tx.insert(k, val.tx_bytes);
        self.lifetime_rx.insert(k, life_rx + excess_of(rx_growth, rx_unseen));
        self.lifetime_tx.insert(k, life_tx + excess_of(tx_growth, tx_unseen));
        self.unseen_rx.insert(k, excess_of(rx_unseen, rx_growth));
        self.unseen_tx.insert(k, excess_of(tx_unseen, tx_growth));
        let comm = val.comm_str().to_owned();
        let mut entry = match self.entries.get(&k) {
            Some(e) => e.clone(),
            None => EbpfTrafficEntry::new(
                k.pid,
                comm.clone(),
                k.remote_addr,
                k.remote_port,
                now,
            ),
        };
        self.comm_cache.insert(k, comm);
        entry.rx_bytes = val.rx_bytes;
        entry.tx_bytes = val.tx_bytes;
        entry.last_seen = now;
        self.entries.insert(k, entry);
        proof {
            old(self)@.lemma_upserted_wf(*key, *val, now);
        }
    }

    /// Whether `upsert` can take the totals in without a count running over.
    pub fn accepts_totals(&self, key: &TrafficKey, val: &TrafficValue) -> (r: bool)
        requires
            self.wf(),
        ensures
            r == self@.can_upsert(*key, *val),
    {
        let k = key.flow_key();
        let rx_growth = growth(val.rx_bytes, count_at(&self.last_kernel_rx, &k));
        let tx_growth = growth(val.tx_bytes, count_at(&self.last_kernel_tx, &k));
        let rx_news = excess_of(rx_growth, count_at(&self.unseen_rx, &k));
        let tx_news = excess_of(tx_growth, count_at(&self.unseen_tx, &k));
        count_at(&self.lifetime_rx, &k) <= u64::MAX - rx_news && count_at(&self.lifetime_tx, &k)
            <= u64::MAX - tx_news
    }

    /// Notes that the kernel's totals for a key have been removed.
    pub fn release(&mut self, key: &TrafficKey)
        requires
            old(self).wf(),
        ensures
            final(self).wf(),
            final(self)@ == old(self)@.released(*key),
    {
        let k = key.flow_key();
        self.last_kernel_rx.insert(k, 0);
        self.last_kernel_tx.insert(k, 0);
        self.unseen_rx.insert(k, 0);
        self.unseen_tx.insert(k, 0);
        proof {
            old(self)@.lemma_released_wf(*key);
        }
    }

    /// Whether the event's flow has no live row, so that a name is wanted for
    /// its process.
    pub fn needs_comm(&self, ev: &TrafficEvent) -> (r: bool)
        requires
            self.wf(),
        ensures
            r == !self@.is_live(ev.flow()),
            r == !self@.entries.dom().contains(ev.flow()),
    {
        !self.entries.contains_key(&ev.flow_key())
    }

    /// Whether `apply_event` can count the event without a count running over.
    pub fn accepts_event(&self, ev: &TrafficEvent) -> (r: bool)
        requires
            self.wf(),
        ensures
            r == self@.can_apply(*ev),
    {
        let k = ev.flow_key();
        let room: u64 = u64::MAX - ev.bytes as u64;
        if ev.direction == DIRECTION_TX {
            count_at(&self.lifetime_tx, &k) <= room
        } else {
            count_at(&self.lifetime_rx, &k) <= room
        }
    }

    /// The cached name of a flow.
    fn comm_at(&self, k: &FlowKey) -> (comm: String)
        requires
            self.comm_cache.wf(),
        ensures
            comm@ == self@.cached_comm(*k),
    {
        match self.comm_cache.get(k) {
            Some(comm) => comm.clone(),
            None => String::new(),
        }
    }

    /// Counts an event. `comm_file` is the text of the comm file of the event's
    /// process, where it could be read; it is used only for a flow without a
    /// live row.
    pub fn apply_event(&mut self, ev: &TrafficEvent, comm_file: Option<String>, now: u128)
        requires
            old(self).wf(),
            old(self)@.can_apply(*ev),
        ensures
            final(self).wf(),
            final(self)@ == old(self)@.with_event(*ev, file_text(comm_file), now),
    {
        let ghost file = file_text(comm_file);
        let k = ev.flow_key();
        let inc = ev.bytes as u64;
        proof {
            assert(self@.flow_wf(k));
        }
        if ev.direction == DIRECTION_TX {
            let life = count_at(&self.lifetime_tx, &k);
            let unseen = count_at(&self.unseen_tx, &k);
            self.lifetime_tx.insert(k, life + inc);
            self.unseen_tx.insert(k, unseen + inc);
        } else {
            let life = count_at(&self.lifetime_rx, &k);
            let unseen = count_at(&self.unseen_rx, &k);
            self.lifetime_rx.insert(k, life + inc);
            self.unseen_rx.insert(k, unseen + inc);
        }
        let mut entry = match self.entries.get(&k) {
            Some(e) => e.clone(),
            None => {
                let comm = match comm_file {
                    Some(text) => trim(text.as_str()),
                    None => self.comm_at(&k),
                };
                self.comm_cache.insert(k, comm.clone());
                EbpfTrafficEntry::new(k.pid, comm, k.remote_addr, k.remote_port, now)
            },
        };
        if ev.direction == DIRECTION_TX {
            entry.tx_bytes = entry.tx_bytes + inc;
        } else {
            entry.rx_bytes = entry.rx_bytes + inc;
        }
        entry.last_seen = now;
        self.entries.insert(k, entry);
        proof {
            old(self)@.lemma_with_event_wf(*ev, file, now);
        }
    }

    /// Evicts the rows that have not been seen for `ttl`. Only live rows go:
    /// lifetime totals are kept forever.
    pub fn evict_stale(&mut self, ttl: u128, now: u128)
        requires
            old(self).wf(),
        ensures
            final(self).wf(),
            final(self)@ == old(self)@.evicted(ttl, now),
    {
        let ghost before = self@;
        let ghost target = self@.evicted(ttl, now).entries;
        let mut kept: Vec<(FlowKey, EbpfTrafficEntry)> = Vec::new();
        loop
            invariant
                self.wf(),
                before.wf(),
                self@ == (TableState { entries: self@.entries, ..before }),
                target == before.evicted(ttl, now).entries,
                forall|k: FlowKey| #[trigger]
                    self@.entries.dom().contains(k) ==> before.entries.dom().contains(k)
                        && self@.entries[k] == before.entries[k],
                forall|i: int|
                    0 <= i < kept@.len() ==> target.dom().contains((#[trigger] kept@[i]).0)
                        && kept@[i].1@ == target[kept@[i].0],
                forall|k: FlowKey| #[trigger]
                    target.dom().contains(k) ==> self@.entries.dom().contains(k) || exists|i: int|
                        0 <= i < kept@.len() && (#[trigger] kept@[i]).0 == k,
            ensures
                self@.entries == Map::<FlowKey, Row>::empty(),
            decreases self.entries.keys().len(),
        {
            let ghost entries_before = self@.entries;
            let ghost kept_before = kept@;
            match self.entries.pop_last() {
                Some((k, e)) => {
                    let age = if now > e.last_seen {
                        now - e.last_seen
                    } else {
                        0
                    };
                    if age < ttl {
                        kept.push((k, e));
                    }
                    proof {
                        assert forall|q: FlowKey| #[trigger]
                            target.dom().contains(q) implies self@.entries.dom().contains(q)
                            || exists|i: int| 0 <= i < kept@.len() && (#[trigger] kept@[i]).0
                            == q by {
                            if q == k {
                                assert(kept@[kept@.len() - 1].0 == q);
                            } else if !entries_before.dom().contains(q) {
                                let i = choose|i: int|
                                    0 <= i < kept_before.len() && (#[trigger] kept_before[i]).0
                                        == q;
                                assert(kept@[i] == kept_before[i]);
                            }
                        }
                        before.lemma_fewer_rows_wf(self@);
                    }
                },
                None => {
                    break;
                },
            }
        }
        loop
            invariant
                self.wf(),
                before.wf(),
                self@ == (TableState { entries: self@.entries, ..before }),
                target == before.evicted(ttl, now).entries,
                forall|k: FlowKey| #[trigger]
                    self@.entries.dom().contains(k) ==> target.dom().contains(k)
                        && self@.entries[k] == target[k],
                forall|i: int|
                    0 <= i < kept@.len() ==> target.dom().contains((#[trigger] kept@[i]).0)
                        && kept@[i].1@ == target[kept@[i].0],
                forall|k: FlowKey| #[trigger]
                    target.dom().contains(k) ==> self@.entries.dom().contains(k) || exists|i: int|
                        0 <= i < kept@.len() && (#[trigger] kept@[i]).0 == k,
            ensures
                self@.entries =~= target,
            decreases kept@.len(),
        {
            let ghost entries_before = self@.entries;
            let ghost kept_before = kept@;
            match kept.pop() {
                Some((k, e)) => {
                    proof {
                        assert(kept_before[kept_before.len() - 1].0 == k);
                    }
                    self.entries.insert(k, e);
                    proof {
                        assert forall|q: FlowKey| #[trigger]
                            target.dom().contains(q) implies self@.entries.dom().contains(q)
                            || exists|i: int| 0 <= i < kept@.len() && (#[trigger] kept@[i]).0
                            == q by {
                            if q != k && !entries_before.dom().contains(q) {
                                let i = choose|i: int|
                                    0 <= i < kept_before.len() && (#[trigger] kept_before[i]).0
                                        == q;
                                assert(kept@[i] == kept_before[i]);
                            }
                        }
                        before.lemma_fewer_rows_wf(self@);
                    }
                },
                None => {
                    break;
                },
            }
        }
    }

    /// Adds the departed flows that have lifetime bytes in one direction; those
    /// that have been counted inbound are not added again for the other.
    fn add_departed(&self, items: &mut Vec<Ranked>, sent: bool)
        requires
            self.wf(),
            self@.ranks_all(old(items)@),
            forall|k: FlowKey| #[trigger]
                covers(old(items)@, k) ==> self@.is_live(k) || (sent
                    && self@.lifetime_rx.dom().contains(k)),
            forall|k: FlowKey| #[trigger] self@.is_live(k) ==> covers(old(items)@, k),
            sent ==> forall|k: FlowKey| #[trigger]
                self@.is_reported(k) && self@.lifetime_rx.dom().contains(k) ==> covers(
                    old(items)@,
                    k,
                ),
        ensures
            self@.ranks_all(final(items)@),
            forall|k: FlowKey| #[trigger] covers(old(items)@, k) ==> covers(final(items)@, k),
            forall|k: FlowKey| #[trigger]
                covers(final(items)@, k) ==> covers(old(items)@, k) || (if sent {
                    self@.lifetime_tx
                } else {
                    self@.lifetime_rx
                }).dom().contains(k),
            forall|k: FlowKey| #[trigger]
                self@.is_reported(k) && (if sent {
                    self@.lifetime_tx
                } else {
                    self@.lifetime_rx
                }).dom().contains(k) ==> covers(final(items)@, k),
    {
        let source = if sent {
            &self.lifetime_tx
        } else {
            &self.lifetime_rx
        };
        let ghost keys = source.keys();
        let ghost first = items@;
        proof {
            source.lemma_keys();
        }
        let len = source.len();
        let mut n: usize = 0;
        while n < len
            invariant
                self.wf(),
                source.wf(),
                source@ == (if sent {
                    self@.lifetime_tx
                } else {
                    self@.lifetime_rx
                }),
                keys == source.keys(),
                len == keys.len(),
                n <= len,
                keys.no_duplicates(),
                forall|k: FlowKey| #[trigger] keys.contains(k) <==> source@.dom().contains(k),
                self@.ranks_all(items@),
                forall|k: FlowKey| #[trigger] covers(first, k) ==> covers(items@, k),
                forall|k: FlowKey| #[trigger]
                    covers(items@, k) ==> covers(first, k) || source@.dom().contains(k),
                forall|k: FlowKey| #[trigger]
                    covers(first, k) ==> self@.is_live(k) || (sent
                        && self@.lifetime_rx.dom().contains(k)),
                forall|k: FlowKey| #[trigger] self@.is_live(k) ==> covers(first, k),
                sent ==> forall|k: FlowKey| #[trigger]
                    self@.is_reported(k) && self@.lifetime_rx.dom().contains(k) ==> covers(
                        first,
                        k,
                    ),
                forall|m: int|
                    0 <= m < n && self@.is_reported(#[trigger] keys[m]) ==> covers(
                        items@,
                        keys[m],
                    ),
                forall|m: int|
                    n <= m < len && !covers(first, #[trigger] keys[m]) ==> !covers(
                        items@,
                        keys[m],
                    ),
            decreases len - n,
        {
            let k = source.key_at(n);
            assert(keys.contains(k));
            if !self.entries.contains_key(&k) && !(sent && self.lifetime_rx.contains_key(&k)) {
                let rx = count_at(&self.lifetime_rx, &k);
                let tx = count_at(&self.lifetime_tx, &k);
                if rx != 0 || tx != 0 {
                    let item = Ranked { key: k, total: rx as u128 + tx as u128, live: false };
                    proof {
                        lemma_covers_push(items@, item);
                    }
                    items.push(item);
                }
            }
            assert(self@.is_live(k) ==> covers(first, k));
            assert(!self@.is_reported(k) || covers(items@, k));
            n += 1;
        }
        assert forall|k: FlowKey| #[trigger]
            self@.is_reported(k) && source@.dom().contains(k) implies covers(items@, k) by {
            assert(keys.contains(k));
            let m = choose|m: int| 0 <= m < keys.len() && keys[m] == k;
            assert(self@.is_reported(keys[m]));
        }
    }

    /// The flows that a snapshot reports, with their totals.
    fn plan(&self) -> (items: Vec<Ranked>)
        requires
            self.wf(),
        ensures
            self@.is_plan(items@),
    {
        let mut items: Vec<Ranked> = Vec::new();
        let ghost keys = self.entries.keys();
        proof {
            self.entries.lemma_keys();
        }
        let len = self.entries.len();
        let mut i: usize = 0;
        while i < len
            invariant
                self.wf(),
                keys == self.entries.keys(),
                len == keys.len(),
                i <= len,
                items@.len() == i,
                forall|k: FlowKey| #[trigger] keys.contains(k) <==> self@.is_live(k),
                forall|j: int|
                    0 <= j < i ==> self@.ranks(#[trigger] items@[j]) && items@[j].key == keys[j],
            decreases len - i,
        {
            let k = self.entries.key_at(i);
            assert(keys.contains(k));
            let rx = count_at(&self.lifetime_rx, &k);
            let tx = count_at(&self.lifetime_tx, &k);
            items.push(Ranked { key: k, total: rx as u128 + tx as u128, live: true });
            i += 1;
        }
        assert forall|k: FlowKey| #[trigger] self@.is_live(k) implies covers(items@, k) by {
            assert(keys.contains(k));
            let j = choose|j: int| 0 <= j < keys.len() && keys[j] == k;
            assert(items@[j].key == k);
        }
        assert forall|k: FlowKey| #[trigger] covers(items@, k) implies self@.is_live(k) by {
            let j = choose|j: int| 0 <= j < items@.len() && (#[trigger] items@[j]).key == k;
            assert(keys.contains(keys[j]));
        }
        self.add_departed(&mut items, false);
        self.add_departed(&mut items, true);
        assert forall|k: FlowKey| #[trigger] self@.is_reported(k) implies covers(items@, k) by {
            assert(self@.is_live(k) || self@.lifetime_rx.dom().contains(k)
                || self@.lifetime_tx.dom().contains(k));
        }
        items
    }

    /// Whether the totals that a snapshot forms fit in a count.
    pub fn accepts_snapshot(&self) -> (r: bool)
        requires
            self.wf(),
        ensures
            r == self@.can_snapshot(),
    {
        let items = self.plan();
        let n = items.len();
        let mut i: usize = 0;
        while i < n
            invariant
                self@.is_plan(items@),
                n == items@.len(),
                i <= n,
                forall|j: int|
                    0 <= j < i && (n > 1 || !items@[j].live) ==> (#[trigger] items@[j]).total
                        <= u64::MAX,
            decreases n - i,
        {
            if (n > 1 || !items[i].live) && items[i].total > u64::MAX as u128 {
                proof {
                    let k = items@[i as int].key;
                    if n > 1 {
                        let j = if i == 0 {
                            1int
                        } else {
                            0int
                        };
                        assert(items@[j].key != k);
                        assert(self@.ranks(items@[j]));
                        assert(self@.is_reported(items@[j].key));
                        assert(self@.has_other(k));
                    }
                    assert(self@.ranks(items@[i as int]));
                    assert(self@.is_reported(k) && self@.reported_total(k) > u64::MAX);
                }
                return false;
            }
            i += 1;
        }
        proof {
            assert forall|k: FlowKey| #[trigger]
                self@.is_reported(k) && (!self@.is_live(k) || self@.has_other(
                    k,
                )) implies self@.reported_total(k) <= u64::MAX by {
                let j = choose|j: int| 0 <= j < items@.len() && (#[trigger] items@[j]).key == k;
                assert(self@.ranks(items@[j]));
                if self@.has_other(k) {
                    let other = choose|other: FlowKey|
                        other != k && #[trigger] self@.is_reported(other);
                    assert(covers(items@, other));
                }
            }
        }
        true
    }

    /// Refreshes every live row: lifetime totals, and the growth since the last
    /// time.
    fn refresh(&mut self)
        requires
            old(self).wf(),
        ensures
            final(self).wf(),
            final(self)@ == old(self)@.snapshotted(),
    {
        let ghost before = self@;
        let ghost keys = self.entries.keys();
        proof {
            self.entries.lemma_keys();
            assert(before.refreshed(keys.take(0).to_set()) =~= before);
        }
        let n = self.entries.len();
        let mut i: usize = 0;
        while i < n
            invariant
                self.wf(),
                before.wf(),
                keys == self.entries.keys(),
                keys.no_duplicates(),
                forall|k: FlowKey| #[trigger] keys.contains(k) <==> before.is_live(k),
                n == keys.len(),
                i <= n,
                self@ == before.refreshed(keys.take(i as int).to_set()),
            decreases n - i,
        {
            let k = self.entries.key_at(i);
            let ghost done = keys.take(i as int).to_set();
            proof {
                assert(keys.contains(k));
                lemma_prefix_set(keys, i as int);
            }
            let mut entry = self.entries.value_at(i).clone();
            let rx = count_at(&self.lifetime_rx, &k);
            let tx = count_at(&self.lifetime_tx, &k);
            proof {
                assert(before.flow_wf(k));
            }
            entry.rx_delta = rx - count_at(&self.prev_rx, &k);
            entry.tx_delta = tx - count_at(&self.prev_tx, &k);
            entry.rx_bytes = rx;
            entry.tx_bytes = tx;
            self.entries.set_at(i, entry);
            proof {
                before.lemma_refreshed_wf(done.insert(k));
                assert(self@.entries =~= before.refreshed(done.insert(k)).entries);
            }
            i += 1;
        }
        self.prev_rx = self.lifetime_rx.duplicate();
        self.prev_tx = self.lifetime_tx.duplicate();
        proof {
            assert(keys.take(n as int) =~= keys);
            assert(keys.to_set() =~= before.entries.dom()) by {
                assert forall|k: FlowKey| #[trigger]
                    keys.to_set().contains(k) <==> before.entries.dom().contains(k) by {
                    assert(keys.contains(k) <==> before.is_live(k));
                }
            }
            before.lemma_snapshotted_wf();
        }
    }

    /// Point-in-time snapshot with deltas computed: a row for each live flow,
    /// and one for each flow that has gone but has lifetime bytes.
    pub fn snapshot(&mut self, now: u128) -> (rows: Vec<EbpfTrafficEntry>)
        requires
            old(self).wf(),
            old(self)@.can_snapshot(),
        ensures
            final(self).wf(),
            final(self)@ == old(self)@.snapshotted(),
            old(self)@.is_snapshot(rows_of(rows@), now),
            forall|i: int, j: int|
                0 <= i < j < rows@.len() ==> (#[trigger] rows@[i]).rx_bytes + rows@[i].tx_bytes >= (
                #[trigger] rows@[j]).rx_bytes + rows@[j].tx_bytes,
    {
        let ghost before = self@;
        let items = self.plan();
        let plan = rank(&items);
        proof {
            before.lemma_plan_reordered(items@, plan@);
        }
        self.refresh();
        let n = plan.len();
        let mut rows: Vec<EbpfTrafficEntry> = Vec::new();
        let mut i: usize = 0;
        while i < n
            invariant
                self.wf(),
                before.wf(),
                self@ == before.snapshotted(),
                before.is_plan(plan@),
                n == plan@.len(),
                i <= n,
                rows@.len() == i,
                forall|j: int|
                    0 <= j < i ==> (#[trigger] rows@[j])@ == before.reported_row(plan@[j].key, now),
            decreases n - i,
        {
            let k = plan[i].key;
            assert(before.ranks(plan@[i as int]));
            let row = match self.entries.get(&k) {
                Some(e) => e.clone(),
                None => {
                    let mut e = EbpfTrafficEntry::new(
                        k.pid,
                        self.comm_at(&k),
                        k.remote_addr,
                        k.remote_port,
                        now,
                    );
                    e.rx_bytes = count_at(&self.lifetime_rx, &k);
                    e.tx_bytes = count_at(&self.lifetime_tx, &k);
                    e
                },
            };
            rows.push(row);
            i += 1;
        }
        proof {
            let shown = rows_of(rows@);
            assert forall|j: int| 0 <= j < shown.len() implies #[trigger] shown[j]
                == before.reported_row(plan@[j].key, now) && shown[j].flow() == plan@[j].key
                && shown[j].total() == plan@[j].total && before.ranks(plan@[j]) by {
                assert(rows@[j]@ == before.reported_row(plan@[j].key, now));
                assert(before.ranks(plan@[j]));
            }
            assert forall|k: FlowKey| #[trigger] before.is_reported(k) implies exists|j: int|
                0 <= j < shown.len() && (#[trigger] shown[j]).flow() == k by {
                assert(covers(plan@, k));
                let j = choose|j: int| 0 <= j < plan@.len() && (#[trigger] plan@[j]).key == k;
                assert(shown[j].flow() == k);
            }
            assert forall|a: int, b: int| 0 <= a < b < shown.len() implies {
                &&& (#[trigger] shown[a]).flow() != (#[trigger] shown[b]).flow()
                &&& shown[a].total() >= shown[b].total()
                &&& shown[a].total() == shown[b].total() && before.is_live(shown[b].flow())
                    ==> before.is_live(shown[a].flow())
            } by {
                assert(plan@[a].may_precede(plan@[b]));
                assert(plan@[a].key != plan@[b].key);
            }
        }
        rows
    }
}

} // verus!
