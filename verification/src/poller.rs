//! The loop that feeds the traffic table.
//!
//! The poller is a machine: it drains the ring buffer, scans the kernel's
//! totals when a scan is due, prunes those of the processes that are gone,
//! sleeps, and starts over. Points in time and spans are nanoseconds.

use vstd::prelude::*;

use crate::flow::FlowKey;
use crate::history::at;
use crate::table::{EbpfTrafficTable, TableState};
use crate::traffic::{TrafficEvent, TrafficKey, TrafficValue, EVENT_SIZE};

verus! {

/// How long a row may stay quiet before it is evicted.
pub const STALE_TTL: u128 = 30_000_000_000;

/// How long the poller sleeps between two rounds.
pub const POLL_PAUSE: u128 = 10_000_000;

/// What the poller wants done.
#[derive(Clone, Copy, Debug, PartialEq, Eq, Structural)]
pub enum PollAction {
    /// Take the next record out of the ring buffer.
    NextRecord,
    /// Read the kernel's totals and hand them to `take_in`.
    Scan,
    /// Take the keys of processes that are gone out of the kernel's totals.
    Prune,
    /// Sleep for `POLL_PAUSE`.
    Sleep,
}

/// The state of the loop.
#[derive(Clone, Copy, Debug)]
pub struct Poller {
    pub poll_interval: u128,
    pub last_scan: u128,
    pub wanted: PollAction,
}

impl Poller {
    /// Whether the last scan is as long ago as scans are to be apart.
    pub open spec fn scan_due(self, now: u128) -> bool {
        if now > self.last_scan {
            now - self.last_scan >= self.poll_interval
        } else {
            self.poll_interval == 0
        }
    }

    /// A poller that starts now.
    pub fn new(poll_interval: u128, now: u128) -> (p: Poller)
        ensures
            p == (Poller { poll_interval, last_scan: now, wanted: PollAction::NextRecord }),
    {
        Poller { poll_interval, last_scan: now, wanted: PollAction::NextRecord }
    }

    /// Goes on with the next record of the ring buffer, or with its being empty.
    /// Gives the event to apply; a record of another size than that of an event
    /// is passed over.
    pub fn on_record(&mut self, record: Option<&[u8]>, now: u128) -> (ev: Option<TrafficEvent>)
        requires
            old(self).wanted == PollAction::NextRecord,
        ensures
            match (record, ev) {
                (Some(bytes), Some(ev)) => bytes@ == ev.layout(),
                (Some(bytes), None) => bytes@.len() != EVENT_SIZE,
                (None, ev) => ev is None,
            },
            *final(self) == (Poller {
                wanted: match record {
                    Some(_) => PollAction::NextRecord,
                    None => if old(self).scan_due(now) {
                        PollAction::Scan
                    } else {
                        PollAction::Sleep
                    },
                },
                ..*old(self)
            }),
            record is Some ==> final(self).wanted == PollAction::NextRecord,
            record is None && now >= old(self).last_scan + old(self).poll_interval
                ==> final(self).wanted == PollAction::Scan,
            record is None && old(self).last_scan <= now < old(self).last_scan
                + old(self).poll_interval ==> final(self).wanted == PollAction::Sleep,
    {
        match record {
            Some(bytes) => TrafficEvent::from_bytes(bytes),
            None => {
                let elapsed: u128 = if now > self.last_scan {
                    now - self.last_scan
                } else {
                    0
                };
                self.wanted = if elapsed >= self.poll_interval {
                    PollAction::Scan
                } else {
                    PollAction::Sleep
                };
                None
            },
        }
    }

    /// Goes on after a scan.
    pub fn on_scanned(&mut self, now: u128)
        requires
            old(self).wanted == PollAction::Scan,
        ensures
            *final(self) == (Poller { last_scan: now, wanted: PollAction::Prune, ..*old(self) }),
    {
        self.last_scan = now;
        self.wanted = PollAction::Prune;
    }

    /// Goes on after the totals were pruned.
    pub fn on_pruned(&mut self)
        requires
            old(self).wanted == PollAction::Prune,
        ensures
            *final(self) == (Poller { wanted: PollAction::Sleep, ..*old(self) }),
    {
        self.wanted = PollAction::Sleep;
    }

    /// Goes on after a sleep.
    pub fn on_slept(&mut self)
        requires
            old(self).wanted == PollAction::Sleep,
        ensures
            *final(self) == (Poller { wanted: PollAction::NextRecord, ..*old(self) }),
    {
        self.wanted = PollAction::NextRecord;
    }
}

/// The table once a list of the kernel's totals has been taken in.
pub open spec fn taken_in(
    s: TableState,
    totals: Seq<(TrafficKey, TrafficValue)>,
    now: u128,
) -> TableState
    decreases totals.len(),
{
    if totals.len() == 0 {
        s
    } else {
        taken_in(s, totals.drop_last(), now).upserted(totals.last().0, totals.last().1, now)
    }
}

/// No count runs over while the totals are taken in.
pub open spec fn can_take_in(
    s: TableState,
    totals: Seq<(TrafficKey, TrafficValue)>,
    now: u128,
) -> bool
    decreases totals.len(),
{
    totals.len() == 0 || (can_take_in(s, totals.drop_last(), now) && taken_in(
        s,
        totals.drop_last(),
        now,
    ).can_upsert(totals.last().0, totals.last().1))
}

proof fn lemma_prefix_can_be_taken_in(
    s: TableState,
    totals: Seq<(TrafficKey, TrafficValue)>,
    now: u128,
    n: int,
)
    requires
        can_take_in(s, totals, now),
        0 <= n <= totals.len(),
    ensures
        can_take_in(s, totals.take(n), now),
    decreases totals.len(),
{
    if n < totals.len() {
        lemma_prefix_can_be_taken_in(s, totals.drop_last(), now, n);
        assert(totals.drop_last().take(n) =~= totals.take(n));
    } else {
        assert(totals.take(n) =~= totals);
    }
}

/// Does a scan: takes in the totals that were read from the kernel, in their
/// order, then evicts the rows that have been quiet for `STALE_TTL`. Where a
/// count would run over, gives the place of the total that does not fit; those
/// before it have been taken in, and nothing is evicted.
pub fn take_in(
    table: &mut EbpfTrafficTable,
    totals: &Vec<(TrafficKey, TrafficValue)>,
    now: u128,
) -> (r: Result<(), usize>)
    requires
        old(table).wf(),
    ensures
        final(table).wf(),
        r is Ok == can_take_in(old(table)@, totals@, now),
        match r {
            Ok(_) => final(table)@ == taken_in(old(table)@, totals@, now).evicted(STALE_TTL, now),
            Err(i) => {
                &&& i < totals@.len()
                &&& can_take_in(old(table)@, totals@.take(i as int), now)
                &&& !can_take_in(old(table)@, totals@.take(i + 1), now)
                &&& final(table)@ == taken_in(old(table)@, totals@.take(i as int), now)
            },
        },
{
    let ghost before = table@;
    let mut i: usize = 0;
    while i < totals.len()
        invariant
            i <= totals@.len(),
            table.wf(),
            before == old(table)@,
            can_take_in(before, totals@.take(i as int), now),
            table@ == taken_in(before, totals@.take(i as int), now),
        decreases totals@.len() - i,
    {
        assert(totals@.take(i + 1).drop_last() =~= totals@.take(i as int));
        let (key, val) = totals[i];
        if !table.accepts_totals(&key, &val) {
            proof {
                if can_take_in(before, totals@, now) {
                    lemma_prefix_can_be_taken_in(before, totals@, now, i + 1);
                }
            }
            return Err(i);
        }
        table.upsert(&key, &val, now);
        i += 1;
    }
    assert(totals@.take(i as int) =~= totals@);
    table.evict_stale(STALE_TTL, now);
    Ok(())
}

/// Whether the total at a place is the last of its flow in the list.
pub open spec fn is_last_of_flow(totals: Seq<(TrafficKey, TrafficValue)>, i: int) -> bool {
    forall|j: int|
        i < j < totals.len() ==> (#[trigger] totals[j]).0.flow() != totals[i].0.flow()
}

/// A scan passes over no total: each is what the table then has for the kernel's
/// total of its flow, in a row that was seen just now and so is not evicted.
pub proof fn law_scan_takes_in_each_total(
    s: TableState,
    totals: Seq<(TrafficKey, TrafficValue)>,
    now: u128,
    i: int,
)
    requires
        0 <= i < totals.len(),
        is_last_of_flow(totals, i),
    ensures
        ({
            let after = taken_in(s, totals, now).evicted(STALE_TTL, now);
            let k = totals[i].0.flow();
            &&& after.kernel_rx(k) == totals[i].1.rx_bytes
            &&& after.kernel_tx(k) == totals[i].1.tx_bytes
            &&& after.is_live(k)
            &&& after.entries[k].last_seen == now
        }),
    decreases totals.len(),
{
    let rest = totals.drop_last();
    if i < rest.len() {
        assert forall|j: int| i < j < rest.len() implies (#[trigger] rest[j]).0.flow()
            != rest[i].0.flow() by {
            assert(rest[j] == totals[j]);
        }
        law_scan_takes_in_each_total(s, rest, now, i);
        assert(totals[totals.len() - 1].0.flow() != totals[i].0.flow());
    }
}

/// A scan counts nothing for a flow of which no total was read.
pub proof fn law_scan_leaves_other_totals_alone(
    s: TableState,
    totals: Seq<(TrafficKey, TrafficValue)>,
    now: u128,
    k: FlowKey,
)
    requires
        forall|i: int| 0 <= i < totals.len() ==> (#[trigger] totals[i]).0.flow() != k,
    ensures
        ({
            let after = taken_in(s, totals, now).evicted(STALE_TTL, now);
            &&& after.life_rx(k) == s.life_rx(k)
            &&& after.life_tx(k) == s.life_tx(k)
            &&& after.cached_comm(k) == s.cached_comm(k)
            &&& after.is_live(k) == (s.is_live(k) && TableState::is_fresh(
                s.entries[k],
                STALE_TTL,
                now,
            ))
            &&& after.is_live(k) ==> after.entries[k] == s.entries[k]
        }),
    decreases totals.len(),
{
    if totals.len() > 0 {
        let rest = totals.drop_last();
        assert forall|i: int| 0 <= i < rest.len() implies (#[trigger] rest[i]).0.flow() != k by {
            assert(rest[i] == totals[i]);
        }
        law_scan_leaves_other_totals_alone(s, rest, now, k);
        assert(totals[totals.len() - 1].0.flow() != k);
    }
}

/// The keys whose process is not among the live ones, in their order.
pub open spec fn gone(keys: Seq<TrafficKey>, live: Seq<u32>) -> Seq<TrafficKey> {
    keys.filter(|k: TrafficKey| !live.contains(k.pid))
}

fn is_listed(pids: &Vec<u32>, pid: u32) -> (r: bool)
    ensures
        r == pids@.contains(pid),
{
    let mut i: usize = 0;
    while i < pids.len()
        invariant
            i <= pids@.len(),
            forall|j: int| 0 <= j < i ==> #[trigger] pids@[j] != pid,
        decreases pids@.len() - i,
    {
        if pids[i] == pid {
            return true;
        }
        i += 1;
    }
    false
}

/// The keys whose process is gone, in the order in which they came: those that
/// are to leave the kernel's totals. `live` lists the processes that run.
pub fn dead_keys(keys: &Vec<TrafficKey>, live: &Vec<u32>) -> (dead: Vec<TrafficKey>)
    ensures
        dead@ == gone(keys@, live@),
{
    proof {
        reveal(Seq::filter);
    }
    let mut dead: Vec<TrafficKey> = Vec::new();
    let mut i: usize = 0;
    while i < keys.len()
        invariant
            i <= keys@.len(),
            dead@ == gone(keys@.take(i as int), live@),
        decreases keys@.len() - i,
    {
        proof {
            reveal(Seq::filter);
            assert(keys@.take(i + 1).drop_last() =~= keys@.take(i as int));
        }
        if !is_listed(live, keys[i].pid) {
            dead.push(keys[i]);
        }
        i += 1;
    }
    assert(keys@.take(i as int) =~= keys@);
    dead
}

/// The keys that leave the kernel's totals are exactly those of the processes
/// that are gone: no key of a running process is among them, and none of a dead
/// one stays.
pub proof fn law_dead_keys_are_those_of_dead_processes(
    keys: Seq<TrafficKey>,
    live: Seq<u32>,
    k: TrafficKey,
)
    ensures
        gone(keys, live).contains(k) == (keys.contains(k) && !live.contains(k.pid)),
    decreases keys.len(),
{
    reveal(Seq::filter);
    if keys.len() > 0 {
        let rest = keys.drop_last();
        law_dead_keys_are_those_of_dead_processes(rest, live, k);
        assert(keys =~= rest.push(keys.last()));
        vstd::seq_lib::lemma_seq_contains_after_push(rest, keys.last(), k);
        vstd::seq_lib::lemma_seq_contains_after_push(gone(rest, live), keys.last(), k);
    }
}

/// A scan is due from the moment at which the last one is one interval ago, and
/// stays due until the next is made. A clock that went back has let no time pass,
/// so that only an interval of nothing is over.
pub proof fn law_scan_is_due_once_the_interval_is_over(p: Poller, now: u128, later: u128)
    ensures
        now >= p.last_scan + p.poll_interval ==> p.scan_due(now),
        p.last_scan <= now < p.last_scan + p.poll_interval ==> !p.scan_due(now),
        now < p.last_scan ==> (p.scan_due(now) <==> p.poll_interval == 0),
        p.scan_due(now) && now <= later ==> p.scan_due(later),
{
}

/// Whether two states agree on all that decides what a kernel total of a flow
/// brings.
spec fn agree(s: TableState, t: TableState, k: FlowKey) -> bool {
    &&& at(s.lifetime_rx, k) == at(t.lifetime_rx, k)
    &&& at(s.lifetime_tx, k) == at(t.lifetime_tx, k)
    &&& at(s.last_kernel_rx, k) == at(t.last_kernel_rx, k)
    &&& at(s.last_kernel_tx, k) == at(t.last_kernel_tx, k)
    &&& at(s.unseen_rx, k) == at(t.unseen_rx, k)
    &&& at(s.unseen_tx, k) == at(t.unseen_tx, k)
}

proof fn lemma_untouched_flow_agrees(
    s: TableState,
    totals: Seq<(TrafficKey, TrafficValue)>,
    now: u128,
    k: FlowKey,
)
    requires
        forall|j: int| 0 <= j < totals.len() ==> (#[trigger] totals[j]).0.flow() != k,
    ensures
        agree(s, taken_in(s, totals, now), k),
    decreases totals.len(),
{
    if totals.len() > 0 {
        let rest = totals.drop_last();
        assert forall|j: int| 0 <= j < rest.len() implies (#[trigger] rest[j]).0.flow() != k by {
            assert(rest[j] == totals[j]);
        }
        lemma_untouched_flow_agrees(s, rest, now, k);
        assert(totals[totals.len() - 1].0.flow() != k);
    }
}

/// Whether each flow has one total in the list.
pub open spec fn is_one_per_flow(totals: Seq<(TrafficKey, TrafficValue)>) -> bool {
    forall|i: int, j: int|
        0 <= i < j < totals.len() ==> (#[trigger] totals[i]).0.flow() != (
        #[trigger] totals[j]).0.flow()
}

/// A scan does for each flow what taking in the flow's own total does: the totals
/// of the others make no difference, nor does the place in the list.
pub proof fn law_scan_treats_each_total_alone(
    s: TableState,
    totals: Seq<(TrafficKey, TrafficValue)>,
    now: u128,
    i: int,
)
    requires
        is_one_per_flow(totals),
        0 <= i < totals.len(),
    ensures
        ({
            let k = totals[i].0.flow();
            let alone = s.upserted(totals[i].0, totals[i].1, now);
            let after = taken_in(s, totals, now).evicted(STALE_TTL, now);
            &&& after.lifetime_rx[k] == alone.lifetime_rx[k]
            &&& after.lifetime_tx[k] == alone.lifetime_tx[k]
            &&& after.last_kernel_rx[k] == alone.last_kernel_rx[k]
            &&& after.last_kernel_tx[k] == alone.last_kernel_tx[k]
            &&& after.unseen_rx[k] == alone.unseen_rx[k]
            &&& after.unseen_tx[k] == alone.unseen_tx[k]
            &&& after.comm_cache[k] == alone.comm_cache[k]
            &&& after.prev_rx == s.prev_rx
            &&& after.prev_tx == s.prev_tx
        }),
    decreases totals.len(),
{
    let rest = totals.drop_last();
    let k = totals[i].0.flow();
    assert forall|a: int, b: int| 0 <= a < b < rest.len() implies (#[trigger] rest[a]).0.flow() != (
    #[trigger] rest[b]).0.flow() by {
        assert(rest[a] == totals[a] && rest[b] == totals[b]);
    }
    lemma_shown_totals_stay(s, totals, now);
    if i < rest.len() {
        law_scan_treats_each_total_alone(s, rest, now, i);
        assert(totals[totals.len() - 1].0.flow() != k);
    } else {
        assert forall|j: int| 0 <= j < rest.len() implies (#[trigger] rest[j]).0.flow() != k by {
            assert(rest[j] == totals[j]);
        }
        lemma_untouched_flow_agrees(s, rest, now, k);
    }
}

proof fn lemma_shown_totals_stay(
    s: TableState,
    totals: Seq<(TrafficKey, TrafficValue)>,
    now: u128,
)
    ensures
        taken_in(s, totals, now).prev_rx == s.prev_rx,
        taken_in(s, totals, now).prev_tx == s.prev_tx,
    decreases totals.len(),
{
    if totals.len() > 0 {
        lemma_shown_totals_stay(s, totals.drop_last(), now);
    }
}

/// A scan is refused only for a total that does not fit: where each flow has one
/// total, the scan can be done if and only if each total can be taken in.
pub proof fn law_scan_fits_where_each_total_does(
    s: TableState,
    totals: Seq<(TrafficKey, TrafficValue)>,
    now: u128,
)
    requires
        is_one_per_flow(totals),
    ensures
        can_take_in(s, totals, now) <==> forall|i: int|
            0 <= i < totals.len() ==> s.can_upsert((#[trigger] totals[i]).0, totals[i].1),
    decreases totals.len(),
{
    if totals.len() > 0 {
        let rest = totals.drop_last();
        let last = totals.last();
        let k = last.0.flow();
        assert forall|a: int, b: int| 0 <= a < b < rest.len() implies (
        #[trigger] rest[a]).0.flow() != (#[trigger] rest[b]).0.flow() by {
            assert(rest[a] == totals[a] && rest[b] == totals[b]);
        }
        law_scan_fits_where_each_total_does(s, rest, now);
        assert forall|j: int| 0 <= j < rest.len() implies (#[trigger] rest[j]).0.flow() != k by {
            assert(rest[j] == totals[j]);
            assert(totals[totals.len() - 1] == last);
        }
        lemma_untouched_flow_agrees(s, rest, now, k);
        assert(taken_in(s, rest, now).can_upsert(last.0, last.1) == s.can_upsert(last.0, last.1));
        assert(totals[totals.len() - 1] == last);
        assert(forall|i: int| 0 <= i < rest.len() ==> #[trigger] rest[i] == totals[i]);
        if can_take_in(s, totals, now) {
            assert forall|i: int| 0 <= i < totals.len() implies s.can_upsert(
                (#[trigger] totals[i]).0,
                totals[i].1,
            ) by {
                if i < rest.len() {
                    assert(s.can_upsert(rest[i].0, rest[i].1));
                }
            }
        }
        if forall|i: int|
            0 <= i < totals.len() ==> s.can_upsert((#[trigger] totals[i]).0, totals[i].1) {
            assert forall|i: int| 0 <= i < rest.len() implies s.can_upsert(
                (#[trigger] rest[i]).0,
                rest[i].1,
            ) by {
                assert(rest[i] == totals[i]);
            }
            assert(s.can_upsert(totals[totals.len() - 1].0, totals[totals.len() - 1].1));
        }
    }
}

/// The keys that are to leave come in the order in which they were listed, each as
/// often as it was: what goes of one list and another is what goes of the one, then
/// what goes of the other, and of a single key it is the key or nothing.
pub proof fn law_dead_keys_come_in_order(
    keys: Seq<TrafficKey>,
    more: Seq<TrafficKey>,
    k: TrafficKey,
    live: Seq<u32>,
)
    ensures
        gone(keys + more, live) == gone(keys, live) + gone(more, live),
        gone(seq![k], live) == if live.contains(k.pid) {
            seq![]
        } else {
            seq![k]
        },
{
    Seq::filter_distributes_over_add(keys, more, |k: TrafficKey| !live.contains(k.pid));
    reveal_with_fuel(Seq::filter, 2);
    assert(seq![k].drop_last() =~= seq![]);
    assert(gone(seq![k], live) =~= if live.contains(k.pid) {
        seq![]
    } else {
        seq![k]
    });
}

/// A scan evicts the rows of which no total was read and that were last seen thirty
/// seconds ago or longer, and no row of which one was.
pub proof fn law_scan_evicts_rows_quiet_for_thirty_seconds(
    s: TableState,
    totals: Seq<(TrafficKey, TrafficValue)>,
    now: u128,
    k: FlowKey,
)
    requires
        s.entries.dom().contains(k),
        forall|i: int| 0 <= i < totals.len() ==> (#[trigger] totals[i]).0.flow() != k,
        s.entries[k].last_seen <= now,
    ensures
        taken_in(s, totals, now).evicted(STALE_TTL, now).entries.dom().contains(k) <==> now
            < s.entries[k].last_seen + 30_000_000_000,
{
    law_scan_leaves_other_totals_alone(s, totals, now, k);
}

} // verus!
