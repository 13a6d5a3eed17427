//! What holds of the traffic table over any run of operations.

use vstd::prelude::*;

use crate::flow::FlowKey;
use crate::table::{rows_of, EbpfTrafficEntry, Row, TableState};
use crate::text::trimmed;
use crate::traffic::{comm_text, TrafficEvent, TrafficKey, TrafficValue};

verus! {

/// An operation on the table.
pub enum TableOp {
    Upsert(TrafficKey, TrafficValue, u128),
    Apply(TrafficEvent, Option<Seq<char>>, u128),
    Release(TrafficKey),
    Evict(u128, u128),
    Snapshot,
}

impl TableOp {
    /// Whether the operation can be done without a count running over.
    pub open spec fn is_enabled(self, s: TableState) -> bool {
        match self {
            TableOp::Upsert(key, val, _) => s.can_upsert(key, val),
            TableOp::Apply(ev, _, _) => s.can_apply(ev),
            TableOp::Release(_) => true,
            TableOp::Evict(_, _) => true,
            TableOp::Snapshot => s.can_snapshot(),
        }
    }

    pub open spec fn result(self, s: TableState) -> TableState {
        match self {
            TableOp::Upsert(key, val, now) => s.upserted(key, val, now),
            TableOp::Apply(ev, comm_file, now) => s.with_event(ev, comm_file, now),
            TableOp::Release(key) => s.released(key),
            TableOp::Evict(ttl, now) => s.evicted(ttl, now),
            TableOp::Snapshot => s.snapshotted(),
        }
    }

    /// Whether the operation is about the one flow.
    pub open spec fn is_about(self, k: FlowKey) -> bool {
        match self {
            TableOp::Upsert(key, _, _) => key.flow() == k,
            TableOp::Apply(ev, _, _) => ev.flow() == k,
            TableOp::Release(key) => key.flow() == k,
            _ => false,
        }
    }
}

/// The state after a run of operations.
pub open spec fn run(s: TableState, ops: Seq<TableOp>) -> TableState
    decreases ops.len(),
{
    if ops.len() == 0 {
        s
    } else {
        ops.last().result(run(s, ops.drop_last()))
    }
}

/// Whether each operation of a run can be done when its turn comes.
pub open spec fn is_run(s: TableState, ops: Seq<TableOp>) -> bool
    decreases ops.len(),
{
    ops.len() == 0 || (is_run(s, ops.drop_last()) && ops.last().is_enabled(
        run(s, ops.drop_last()),
    ))
}

/// The lifetime total of a flow in one direction.
pub open spec fn lifetime_total(s: TableState, k: FlowKey, tx: bool) -> u64 {
    if tx {
        s.life_tx(k)
    } else {
        s.life_rx(k)
    }
}

/// The outstanding bytes of a flow's events in one direction.
pub open spec fn pending_total(s: TableState, k: FlowKey, tx: bool) -> u64 {
    if tx {
        s.pending_tx(k)
    } else {
        s.pending_rx(k)
    }
}

/// What a kernel total has grown by since it was last seen.
pub open spec fn kernel_growth(
    s: TableState,
    key: TrafficKey,
    val: TrafficValue,
    tx: bool,
) -> u64 {
    if tx {
        s.kernel_tx_growth(key, val)
    } else {
        s.kernel_rx_growth(key, val)
    }
}

/// Lifetime totals never fall, and neither they nor the cached names are ever
/// lost: they survive eviction and resets of the kernel's counters.
pub proof fn law_lifetime_totals_never_fall(s: TableState, ops: Seq<TableOp>, k: FlowKey)
    requires
        is_run(s, ops),
    ensures
        run(s, ops).life_rx(k) >= s.life_rx(k),
        run(s, ops).life_tx(k) >= s.life_tx(k),
        s.lifetime_rx.dom().subset_of(run(s, ops).lifetime_rx.dom()),
        s.lifetime_tx.dom().subset_of(run(s, ops).lifetime_tx.dom()),
        s.comm_cache.dom().subset_of(run(s, ops).comm_cache.dom()),
    decreases ops.len(),
{
    if ops.len() > 0 {
        law_lifetime_totals_never_fall(s, ops.drop_last(), k);
    }
}

/// A run leads from well-formed states to well-formed states: each row stands at
/// its own flow and has a name, and the lifetime total is never below the row,
/// the last snapshot, or what the kernel and the outstanding events come to.
pub proof fn law_runs_keep_the_table_well_formed(s: TableState, ops: Seq<TableOp>)
    requires
        s.wf(),
        is_run(s, ops),
    ensures
        run(s, ops).wf(),
    decreases ops.len(),
{
    if ops.len() > 0 {
        law_runs_keep_the_table_well_formed(s, ops.drop_last());
        let before = run(s, ops.drop_last());
        match ops.last() {
            TableOp::Upsert(key, val, now) => {
                before.lemma_upserted_wf(key, val, now);
            },
            TableOp::Apply(ev, comm_file, now) => {
                before.lemma_with_event_wf(ev, comm_file, now);
            },
            TableOp::Release(key) => {
                before.lemma_released_wf(key);
            },
            TableOp::Evict(ttl, now) => {
                before.lemma_evicted_wf(ttl, now);
            },
            TableOp::Snapshot => {
                before.lemma_snapshotted_wf();
            },
        }
    }
}

/// Flows are independent: what is done for one leaves the rows, totals and name
/// of every other as they were.
pub proof fn law_flows_are_independent(s: TableState, op: TableOp, k: FlowKey)
    requires
        op is Upsert || op is Apply || op is Release,
        !op.is_about(k),
    ensures
        op.result(s).is_live(k) == s.is_live(k),
        s.is_live(k) ==> op.result(s).entries[k] == s.entries[k],
        op.result(s).life_rx(k) == s.life_rx(k),
        op.result(s).life_tx(k) == s.life_tx(k),
        op.result(s).comm_cache.dom().contains(k) == s.comm_cache.dom().contains(k),
        op.result(s).cached_comm(k) == s.cached_comm(k),
{
}

/// A snapshot, an eviction and a removal in the kernel count nothing: all
/// lifetime totals and names stay exactly as they were.
pub proof fn law_only_events_and_polls_count(s: TableState, op: TableOp)
    requires
        op is Snapshot || op is Evict || op is Release,
    ensures
        op.result(s).lifetime_rx == s.lifetime_rx,
        op.result(s).lifetime_tx == s.lifetime_tx,
        op.result(s).comm_cache == s.comm_cache,
        !(op is Evict) ==> op.result(s).entries.dom() == s.entries.dom(),
{
    assert(s.snapshotted().entries.dom() =~= s.entries.dom());
}

/// The bytes that a list of events counts for a flow in one direction.
pub open spec fn event_bytes(evs: Seq<TrafficEvent>, k: FlowKey, tx: bool) -> int
    decreases evs.len(),
{
    if evs.len() == 0 {
        0
    } else {
        event_bytes(evs.drop_last(), k, tx) + if evs.last().flow() == k && evs.last().is_tx()
            == tx {
            evs.last().bytes as int
        } else {
            0
        }
    }
}

/// The operations that count a list of events.
pub open spec fn applications(
    evs: Seq<TrafficEvent>,
    comm_files: Seq<Option<Seq<char>>>,
    times: Seq<u128>,
) -> Seq<TableOp> {
    Seq::new(evs.len(), |i: int| TableOp::Apply(evs[i], comm_files[i], times[i]))
}

/// No byte of an event is lost: while events are counted, the lifetime totals of
/// a flow grow by what the events say of it, and so do the outstanding bytes.
pub proof fn law_events_add_up(
    s: TableState,
    evs: Seq<TrafficEvent>,
    comm_files: Seq<Option<Seq<char>>>,
    times: Seq<u128>,
    k: FlowKey,
    tx: bool,
)
    requires
        s.wf(),
        comm_files.len() == evs.len(),
        times.len() == evs.len(),
        is_run(s, applications(evs, comm_files, times)),
    ensures
        ({
            let after = run(s, applications(evs, comm_files, times));
            &&& lifetime_total(after, k, tx) == lifetime_total(s, k, tx) + event_bytes(evs, k, tx)
            &&& pending_total(after, k, tx) == pending_total(s, k, tx) + event_bytes(evs, k, tx)
            &&& after.last_kernel_rx == s.last_kernel_rx
            &&& after.last_kernel_tx == s.last_kernel_tx
        }),
    decreases evs.len(),
{
    if evs.len() > 0 {
        let shorter = applications(evs.drop_last(), comm_files.drop_last(), times.drop_last());
        assert(applications(evs, comm_files, times).drop_last() =~= shorter);
        law_events_add_up(
            s,
            evs.drop_last(),
            comm_files.drop_last(),
            times.drop_last(),
            k,
            tx,
        );
        law_runs_keep_the_table_well_formed(s, shorter);
        assert(run(s, shorter).flow_wf(evs.last().flow()));
    }
}

/// A byte counts once where its event comes before the scan that shows it: where
/// nothing was outstanding, events whose bytes the kernel's total then shows have
/// been counted once, and nothing is outstanding again.
pub proof fn law_event_and_scan_count_once(
    s: TableState,
    evs: Seq<TrafficEvent>,
    comm_files: Seq<Option<Seq<char>>>,
    times: Seq<u128>,
    key: TrafficKey,
    val: TrafficValue,
    now: u128,
    tx: bool,
)
    requires
        s.wf(),
        comm_files.len() == evs.len(),
        times.len() == evs.len(),
        is_run(s, applications(evs, comm_files, times)),
        pending_total(s, key.flow(), tx) == 0,
        kernel_growth(s, key, val, tx) == event_bytes(evs, key.flow(), tx),
    ensures
        ({
            let after = run(s, applications(evs, comm_files, times)).upserted(key, val, now);
            &&& lifetime_total(after, key.flow(), tx) == lifetime_total(s, key.flow(), tx)
                + event_bytes(evs, key.flow(), tx)
            &&& pending_total(after, key.flow(), tx) == 0
        }),
{
    law_events_add_up(s, evs, comm_files, times, key.flow(), tx);
}

/// An event that comes behind the scan that shows its bytes counts them again:
/// once more in the lifetime total, and as outstanding bytes, which a scan of the
/// same total does not cover.
pub proof fn law_event_behind_its_scan_counts_again(
    s: TableState,
    key: TrafficKey,
    val: TrafficValue,
    ev: TrafficEvent,
    comm_file: Option<Seq<char>>,
    at: u128,
    now: u128,
)
    requires
        s.wf(),
        ev.flow() == key.flow(),
        s.can_upsert(key, val),
        s.upserted(key, val, at).can_apply(ev),
    ensures
        ({
            let scanned = s.upserted(key, val, at);
            let after = scanned.with_event(ev, comm_file, at).upserted(key, val, now);
            let k = key.flow();
            let tx = ev.is_tx();
            &&& lifetime_total(after, k, tx) == lifetime_total(scanned, k, tx) + ev.bytes
            &&& pending_total(after, k, tx) == pending_total(scanned, k, tx) + ev.bytes
        }),
{
    s.lemma_upserted_wf(key, val, at);
    assert(s.upserted(key, val, at).flow_wf(key.flow()));
}

/// So does an event that comes once the kernel has dropped its key.
pub proof fn law_event_of_a_released_key_counts_again(
    s: TableState,
    key: TrafficKey,
    ev: TrafficEvent,
    comm_file: Option<Seq<char>>,
    now: u128,
)
    requires
        s.wf(),
        ev.flow() == key.flow(),
        s.can_apply(ev),
    ensures
        ({
            let after = s.released(key).with_event(ev, comm_file, now);
            let k = key.flow();
            let tx = ev.is_tx();
            &&& s.released(key).can_apply(ev)
            &&& lifetime_total(after, k, tx) == lifetime_total(s, k, tx) + ev.bytes
            &&& pending_total(after, k, tx) == ev.bytes
        }),
{
}

/// The growth of the kernel's total for a flow over a run.
pub open spec fn run_kernel_growth(s: TableState, ops: Seq<TableOp>, k: FlowKey, tx: bool) -> int
    decreases ops.len(),
{
    if ops.len() == 0 {
        0
    } else {
        run_kernel_growth(s, ops.drop_last(), k, tx) + match ops.last() {
            TableOp::Upsert(key, val, _) if key.flow() == k => kernel_growth(
                run(s, ops.drop_last()),
                key,
                val,
                tx,
            ) as int,
            _ => 0,
        }
    }
}

/// Whether the kernel keeps its totals for a flow over a run.
pub open spec fn is_never_released(ops: Seq<TableOp>, k: FlowKey) -> bool {
    forall|i: int|
        0 <= i < ops.len() ==> !((#[trigger] ops[i]) is Release && ops[i].is_about(k))
}

/// Scans are authoritative: over any run, in whatever order events and scans
/// come, the lifetime total less the outstanding bytes of events grows by what the
/// kernel counted, and by nothing else.
pub proof fn law_lifetime_is_what_the_kernel_counted(
    s: TableState,
    ops: Seq<TableOp>,
    k: FlowKey,
    tx: bool,
)
    requires
        s.wf(),
        is_run(s, ops),
        is_never_released(ops, k),
    ensures
        lifetime_total(run(s, ops), k, tx) - pending_total(run(s, ops), k, tx) == lifetime_total(
            s,
            k,
            tx,
        ) - pending_total(s, k, tx) + run_kernel_growth(s, ops, k, tx),
    decreases ops.len(),
{
    if ops.len() > 0 {
        let shorter = ops.drop_last();
        assert(!(ops[ops.len() - 1] is Release && ops[ops.len() - 1].is_about(k)));
        assert forall|i: int| 0 <= i < shorter.len() implies !((#[trigger] shorter[i]) is Release
            && shorter[i].is_about(k)) by {
            assert(shorter[i] == ops[i]);
        }
        law_lifetime_is_what_the_kernel_counted(s, shorter, k, tx);
        law_runs_keep_the_table_well_formed(s, shorter);
        assert(run(s, shorter).flow_wf(k));
    }
}

/// Polling the same kernel totals again adds nothing to the lifetime totals.
pub proof fn law_unchanged_kernel_totals_add_nothing(
    s: TableState,
    key: TrafficKey,
    val: TrafficValue,
    first: u128,
    second: u128,
)
    requires
        s.can_upsert(key, val),
    ensures
        s.upserted(key, val, first).can_upsert(key, val),
        s.upserted(key, val, first).upserted(key, val, second).lifetime_rx == s.upserted(
            key,
            val,
            first,
        ).lifetime_rx,
        s.upserted(key, val, first).upserted(key, val, second).lifetime_tx == s.upserted(
            key,
            val,
            first,
        ).lifetime_tx,
{
    let once = s.upserted(key, val, first);
    let twice = once.upserted(key, val, second);
    assert(twice.lifetime_rx =~= once.lifetime_rx);
    assert(twice.lifetime_tx =~= once.lifetime_tx);
}

/// While the kernel's counters only grow, how often they are polled makes no
/// difference: a poll in between leaves the lifetime totals the same.
pub proof fn law_polls_in_between_make_no_difference(
    s: TableState,
    key: TrafficKey,
    early: TrafficValue,
    late: TrafficValue,
    first: u128,
    second: u128,
)
    requires
        s.kernel_rx(key.flow()) <= early.rx_bytes <= late.rx_bytes,
        s.kernel_tx(key.flow()) <= early.tx_bytes <= late.tx_bytes,
        s.can_upsert(key, late),
    ensures
        s.can_upsert(key, early),
        s.upserted(key, early, first).can_upsert(key, late),
        s.upserted(key, early, first).upserted(key, late, second).lifetime_rx == s.upserted(
            key,
            late,
            second,
        ).lifetime_rx,
        s.upserted(key, early, first).upserted(key, late, second).lifetime_tx == s.upserted(
            key,
            late,
            second,
        ).lifetime_tx,
{
    let both = s.upserted(key, early, first).upserted(key, late, second);
    let one = s.upserted(key, late, second);
    assert(both.lifetime_rx =~= one.lifetime_rx);
    assert(both.lifetime_tx =~= one.lifetime_tx);
}

/// A kernel counter that went back has started over from zero: all that it shows
/// is added, but for the outstanding bytes of events.
pub proof fn law_kernel_reset_is_a_fresh_start(
    s: TableState,
    key: TrafficKey,
    val: TrafficValue,
    now: u128,
)
    requires
        s.can_upsert(key, val),
    ensures
        val.rx_bytes < s.kernel_rx(key.flow()) && s.pending_rx(key.flow()) == 0 ==> s.upserted(
            key,
            val,
            now,
        ).life_rx(key.flow()) == s.life_rx(key.flow()) + val.rx_bytes,
        val.tx_bytes < s.kernel_tx(key.flow()) && s.pending_tx(key.flow()) == 0 ==> s.upserted(
            key,
            val,
            now,
        ).life_tx(key.flow()) == s.life_tx(key.flow()) + val.tx_bytes,
{
}

/// Once the kernel has dropped a key, all that it counts for it anew is added.
pub proof fn law_released_key_starts_over(
    s: TableState,
    key: TrafficKey,
    val: TrafficValue,
    now: u128,
)
    requires
        s.released(key).can_upsert(key, val),
    ensures
        s.released(key).upserted(key, val, now).life_rx(key.flow()) == s.life_rx(key.flow())
            + val.rx_bytes,
        s.released(key).upserted(key, val, now).life_tx(key.flow()) == s.life_tx(key.flow())
            + val.tx_bytes,
{
}

/// A flow that has lifetime bytes is still reported once its row is evicted:
/// under its cached name, with its lifetime totals and without deltas.
pub proof fn law_evicted_flow_is_still_reported(
    s: TableState,
    k: FlowKey,
    ttl: u128,
    evicted_at: u128,
    now: u128,
)
    requires
        s.wf(),
        s.is_live(k),
        !TableState::is_fresh(s.entries[k], ttl, evicted_at),
        s.life_rx(k) + s.life_tx(k) != 0,
    ensures
        !s.evicted(ttl, evicted_at).is_live(k),
        s.evicted(ttl, evicted_at).is_reported(k),
        s.evicted(ttl, evicted_at).reported_row(k, now) == (Row {
            rx_bytes: s.life_rx(k),
            tx_bytes: s.life_tx(k),
            ..Row::fresh(k, s.comm_cache[k], now)
        }),
{
}

/// The totals that a snapshot shows are lifetime totals, of live and of departed
/// flows alike; departed flows have no deltas.
pub proof fn law_snapshot_shows_lifetime_totals(
    s: TableState,
    rows: Seq<Row>,
    now: u128,
    i: int,
)
    requires
        s.is_snapshot(rows, now),
        0 <= i < rows.len(),
    ensures
        rows[i].rx_bytes == s.life_rx(rows[i].flow()),
        rows[i].tx_bytes == s.life_tx(rows[i].flow()),
        !s.is_live(rows[i].flow()) ==> rows[i].rx_delta == 0 && rows[i].tx_delta == 0,
{
}

/// Whether a list has a row that agrees with another in flow, name and totals.
pub open spec fn has_same_totals(rows: Seq<Row>, row: Row) -> bool {
    exists|i: int|
        0 <= i < rows.len() && (#[trigger] rows[i]).flow() == row.flow() && rows[i].comm == row.comm
            && rows[i].rx_bytes == row.rx_bytes && rows[i].tx_bytes == row.tx_bytes
}

proof fn lemma_same_totals(
    s: TableState,
    t: TableState,
    rows: Seq<Row>,
    now: u128,
    row: Row,
    at: u128,
)
    requires
        t.is_snapshot(rows, now),
        s.wf(),
        t.wf(),
        s.is_reported(row.flow()),
        row == s.reported_row(row.flow(), at),
        t.entries.dom() == s.entries.dom(),
        forall|k: FlowKey| #[trigger] s.is_live(k) ==> t.entries[k].comm == s.entries[k].comm,
        t.lifetime_rx == s.lifetime_rx,
        t.lifetime_tx == s.lifetime_tx,
        t.comm_cache == s.comm_cache,
    ensures
        has_same_totals(rows, row),
{
    let k = row.flow();
    assert(t.is_reported(k));
    let i = choose|i: int| 0 <= i < rows.len() && (#[trigger] rows[i]).flow() == k;
    assert(rows[i] == t.reported_row(k, now));
    assert(s.is_live(k) == t.is_live(k));
}

/// Where a snapshot can be taken, another can be taken right after it.
pub proof fn law_snapshot_can_be_taken_again(s: TableState)
    requires
        s.can_snapshot(),
    ensures
        s.snapshotted().can_snapshot(),
{
    let t = s.snapshotted();
    assert(t.entries.dom() =~= s.entries.dom());
    assert forall|k: FlowKey| #[trigger]
        t.is_reported(k) && (!t.is_live(k) || t.has_other(k)) implies t.reported_total(k)
        <= u64::MAX by {
        assert(s.is_reported(k));
        assert(s.is_live(k) == t.is_live(k));
        if t.has_other(k) {
            let other = choose|other: FlowKey| other != k && #[trigger] t.is_reported(other);
            assert(s.is_reported(other));
        }
        assert(t.reported_total(k) == s.reported_total(k));
    }
}

/// Taking a snapshot changes nothing that a snapshot reports but the deltas: two
/// in a row have the same flows with the same names and totals, and the second
/// shows no deltas.
pub proof fn law_snapshots_in_a_row_agree(
    s: TableState,
    first: Seq<Row>,
    second: Seq<Row>,
    at: u128,
    now: u128,
)
    requires
        s.wf(),
        s.is_snapshot(first, at),
        s.snapshotted().is_snapshot(second, now),
    ensures
        forall|i: int| 0 <= i < first.len() ==> has_same_totals(second, #[trigger] first[i]),
        forall|i: int| 0 <= i < second.len() ==> has_same_totals(first, #[trigger] second[i]),
        forall|i: int|
            0 <= i < second.len() ==> (#[trigger] second[i]).rx_delta == 0 && second[i].tx_delta
                == 0,
{
    let t = s.snapshotted();
    s.lemma_snapshotted_wf();
    assert(t.entries.dom() =~= s.entries.dom());
    assert forall|i: int| 0 <= i < first.len() implies has_same_totals(
        second,
        #[trigger] first[i],
    ) by {
        lemma_same_totals(s, t, second, now, first[i], at);
    }
    assert forall|i: int| 0 <= i < second.len() implies has_same_totals(
        first,
        #[trigger] second[i],
    ) by {
        assert forall|k: FlowKey| #[trigger] t.is_live(k) implies s.entries[k].comm
            == t.entries[k].comm by {
            assert(s.is_live(k));
        }
        lemma_same_totals(t, s, first, at, second[i], now);
    }
}

/// A table that has seen nothing has nothing to show.
pub proof fn law_empty_table_has_an_empty_snapshot(rows: Seq<Row>, now: u128)
    requires
        TableState::empty().is_snapshot(rows, now),
    ensures
        rows.len() == 0,
        TableState::empty().wf(),
        TableState::empty().can_snapshot(),
{
    if rows.len() > 0 {
        assert(TableState::empty().is_reported(rows[0].flow()));
    }
}

proof fn lemma_shown_totals_stay(s: TableState, ops: Seq<TableOp>)
    requires
        forall|i: int| 0 <= i < ops.len() ==> !((#[trigger] ops[i]) is Snapshot),
    ensures
        run(s, ops).prev_rx == s.prev_rx,
        run(s, ops).prev_tx == s.prev_tx,
    decreases ops.len(),
{
    if ops.len() > 0 {
        let shorter = ops.drop_last();
        assert forall|i: int| 0 <= i < shorter.len() implies !((#[trigger] shorter[i])
            is Snapshot) by {
            assert(shorter[i] == ops[i]);
        }
        lemma_shown_totals_stay(s, shorter);
        assert(!(ops[ops.len() - 1] is Snapshot));
    }
}

/// A delta is the bytes of the last collection interval: whatever is done after
/// a snapshot, a live row's deltas are what its lifetime totals have grown by
/// since.
pub proof fn law_delta_is_the_bytes_of_the_interval(
    s: TableState,
    ops: Seq<TableOp>,
    k: FlowKey,
    now: u128,
)
    requires
        s.wf(),
        is_run(s.snapshotted(), ops),
        forall|i: int| 0 <= i < ops.len() ==> !((#[trigger] ops[i]) is Snapshot),
        run(s.snapshotted(), ops).is_live(k),
    ensures
        ({
            let after = run(s.snapshotted(), ops);
            let row = after.reported_row(k, now);
            &&& row.rx_delta == after.life_rx(k) - s.life_rx(k)
            &&& row.tx_delta == after.life_tx(k) - s.life_tx(k)
        }),
{
    lemma_shown_totals_stay(s.snapshotted(), ops);
    law_lifetime_totals_never_fall(s.snapshotted(), ops, k);
}

/// The kernel's name for a process is what the table caches, whatever it held.
pub proof fn law_kernel_names_are_cached(
    s: TableState,
    key: TrafficKey,
    val: TrafficValue,
    now: u128,
)
    ensures
        s.upserted(key, val, now).cached_comm(key.flow()) == comm_text(val.comm@),
{
}

/// Dead processes stay labelled: a cached name survives everything but a new
/// name, be it from the kernel or from a comm file.
pub proof fn law_cached_name_survives(s: TableState, ops: Seq<TableOp>, k: FlowKey)
    requires
        s.comm_cache.dom().contains(k),
        forall|i: int|
            0 <= i < ops.len() && (#[trigger] ops[i]).is_about(k) ==> !(ops[i] is Upsert) && (
            ops[i] matches TableOp::Apply(_, file, _) ==> file is None),
    ensures
        run(s, ops).comm_cache.dom().contains(k),
        run(s, ops).cached_comm(k) == s.cached_comm(k),
    decreases ops.len(),
{
    if ops.len() > 0 {
        let shorter = ops.drop_last();
        assert forall|i: int|
            0 <= i < shorter.len() && (#[trigger] shorter[i]).is_about(k) implies !(shorter[i]
            is Upsert) && (shorter[i] matches TableOp::Apply(_, file, _) ==> file is None) by {
            assert(shorter[i] == ops[i]);
        }
        law_cached_name_survives(s, shorter, k);
        assert(ops[ops.len() - 1] == ops.last());
    }
}

/// What a map of counts has at a flow, nothing being zero.
pub open spec fn at(m: Map<FlowKey, u64>, k: FlowKey) -> int {
    if m.dom().contains(k) {
        m[k] as int
    } else {
        0
    }
}

/// Every byte that the kernel counts is counted, once. Less the outstanding bytes
/// of events, the lifetime total grows by what the kernel's total has grown by, or
/// by all of it where it went back. It does not fall, and it grows only once no
/// bytes of events are outstanding.
pub proof fn law_kernel_total_is_counted_in_full(
    s: TableState,
    key: TrafficKey,
    val: TrafficValue,
    now: u128,
)
    requires
        s.can_upsert(key, val),
    ensures
        ({
            let k = key.flow();
            let after = s.upserted(key, val, now);
            let grown = if val.rx_bytes >= at(s.last_kernel_rx, k) {
                val.rx_bytes - at(s.last_kernel_rx, k)
            } else {
                val.rx_bytes as int
            };
            &&& at(after.lifetime_rx, k) - at(after.unseen_rx, k) == at(s.lifetime_rx, k) - at(
                s.unseen_rx,
                k,
            ) + grown
            &&& at(after.lifetime_rx, k) >= at(s.lifetime_rx, k)
            &&& at(after.unseen_rx, k) == 0 || at(after.lifetime_rx, k) == at(s.lifetime_rx, k)
            &&& at(after.last_kernel_rx, k) == val.rx_bytes
        }),
        ({
            let k = key.flow();
            let after = s.upserted(key, val, now);
            let grown = if val.tx_bytes >= at(s.last_kernel_tx, k) {
                val.tx_bytes - at(s.last_kernel_tx, k)
            } else {
                val.tx_bytes as int
            };
            &&& at(after.lifetime_tx, k) - at(after.unseen_tx, k) == at(s.lifetime_tx, k) - at(
                s.unseen_tx,
                k,
            ) + grown
            &&& at(after.lifetime_tx, k) >= at(s.lifetime_tx, k)
            &&& at(after.unseen_tx, k) == 0 || at(after.lifetime_tx, k) == at(s.lifetime_tx, k)
            &&& at(after.last_kernel_tx, k) == val.tx_bytes
        }),
{
}

/// Kernel totals can be taken in exactly where what they bring beyond the
/// outstanding bytes fits on top of the lifetime totals.
pub proof fn law_kernel_total_is_taken_where_it_fits(
    s: TableState,
    key: TrafficKey,
    val: TrafficValue,
    rx_grown: int,
    tx_grown: int,
)
    requires
        rx_grown == if val.rx_bytes >= at(s.last_kernel_rx, key.flow()) {
            val.rx_bytes - at(s.last_kernel_rx, key.flow())
        } else {
            val.rx_bytes as int
        },
        tx_grown == if val.tx_bytes >= at(s.last_kernel_tx, key.flow()) {
            val.tx_bytes - at(s.last_kernel_tx, key.flow())
        } else {
            val.tx_bytes as int
        },
    ensures
        s.can_upsert(key, val) <==> {
            &&& rx_grown <= at(s.unseen_rx, key.flow()) || at(s.lifetime_rx, key.flow()) + rx_grown
                - at(s.unseen_rx, key.flow()) <= u64::MAX
            &&& tx_grown <= at(s.unseen_tx, key.flow()) || at(s.lifetime_tx, key.flow()) + tx_grown
                - at(s.unseen_tx, key.flow()) <= u64::MAX
        },
{
    assert(s.life_rx(key.flow()) == at(s.lifetime_rx, key.flow()));
    assert(s.life_tx(key.flow()) == at(s.lifetime_tx, key.flow()));
}

/// A kernel total makes a row for its flow, or keeps the one there is: seen just
/// now, under the name that it had, or else the kernel's. The name is cached.
/// Nothing is known anew of any other flow, nor of what the last snapshot showed.
pub proof fn law_kernel_total_is_about_its_flow(
    s: TableState,
    key: TrafficKey,
    val: TrafficValue,
    now: u128,
    other: FlowKey,
)
    requires
        s.wf(),
        s.can_upsert(key, val),
    ensures
        ({
            let k = key.flow();
            let after = s.upserted(key, val, now);
            let row = after.entries[k];
            &&& after.entries.dom().contains(k)
            &&& row.pid == k.pid
            &&& row.remote_addr == k.remote_addr
            &&& row.remote_port == k.remote_port
            &&& row.last_seen == now
            &&& row.comm == if s.entries.dom().contains(k) {
                s.entries[k].comm
            } else {
                comm_text(val.comm@)
            }
            &&& after.comm_cache.dom().contains(k)
            &&& after.comm_cache[k] == comm_text(val.comm@)
            &&& after.prev_rx == s.prev_rx
            &&& after.prev_tx == s.prev_tx
        }),
        other != key.flow() ==> {
            let after = s.upserted(key, val, now);
            &&& at(after.lifetime_rx, other) == at(s.lifetime_rx, other)
            &&& at(after.lifetime_tx, other) == at(s.lifetime_tx, other)
            &&& at(after.last_kernel_rx, other) == at(s.last_kernel_rx, other)
            &&& at(after.last_kernel_tx, other) == at(s.last_kernel_tx, other)
            &&& at(after.unseen_rx, other) == at(s.unseen_rx, other)
            &&& at(after.unseen_tx, other) == at(s.unseen_tx, other)
            &&& after.comm_cache.dom().contains(other) == s.comm_cache.dom().contains(other)
            &&& s.comm_cache.dom().contains(other) ==> after.comm_cache[other]
                == s.comm_cache[other]
            &&& after.entries.dom().contains(other) == s.entries.dom().contains(other)
            &&& s.entries.dom().contains(other) ==> after.entries[other] == s.entries[other]
        },
{
    assert(s.flow_wf(key.flow()));
}

/// An event adds its bytes to the lifetime total of its flow, in the direction that
/// its code gives and in no other, and to the outstanding bytes of that direction.
pub proof fn law_event_adds_its_bytes(
    s: TableState,
    ev: TrafficEvent,
    comm_file: Option<Seq<char>>,
    now: u128,
)
    requires
        s.wf(),
        s.can_apply(ev),
    ensures
        ({
            let k = ev.flow();
            let after = s.with_event(ev, comm_file, now);
            let rx = if ev.direction == 1 {
                0
            } else {
                ev.bytes as int
            };
            let tx = if ev.direction == 1 {
                ev.bytes as int
            } else {
                0
            };
            &&& at(after.lifetime_rx, k) == at(s.lifetime_rx, k) + rx
            &&& at(after.lifetime_tx, k) == at(s.lifetime_tx, k) + tx
            &&& at(after.unseen_rx, k) == at(s.unseen_rx, k) + rx
            &&& at(after.unseen_tx, k) == at(s.unseen_tx, k) + tx
            &&& after.last_kernel_rx == s.last_kernel_rx
            &&& after.last_kernel_tx == s.last_kernel_tx
            &&& after.prev_rx == s.prev_rx
            &&& after.prev_tx == s.prev_tx
        }),
{
    assert(s.flow_wf(ev.flow()));
}

/// An event can be counted exactly where its bytes fit on top of the lifetime total
/// of its direction.
pub proof fn law_event_is_counted_where_it_fits(s: TableState, ev: TrafficEvent)
    ensures
        s.can_apply(ev) <==> if ev.direction == 1 {
            at(s.lifetime_tx, ev.flow()) + ev.bytes <= u64::MAX
        } else {
            at(s.lifetime_rx, ev.flow()) + ev.bytes <= u64::MAX
        },
{
}

/// An event makes a row for its flow, or keeps the one there is: seen just now.
/// A row that there was keeps its name. A new one is named after the comm file,
/// less the white space at its ends, or where that cannot be read, as the flow was
/// named before, and that name is cached. Nothing is known anew of any other flow.
pub proof fn law_event_is_about_its_flow(
    s: TableState,
    ev: TrafficEvent,
    comm_file: Option<Seq<char>>,
    now: u128,
    other: FlowKey,
)
    requires
        s.wf(),
        s.can_apply(ev),
    ensures
        ({
            let k = ev.flow();
            let after = s.with_event(ev, comm_file, now);
            let row = after.entries[k];
            &&& after.entries.dom().contains(k)
            &&& row.pid == k.pid
            &&& row.remote_addr == k.remote_addr
            &&& row.remote_port == k.remote_port
            &&& row.last_seen == now
            &&& after.comm_cache.dom().contains(k)
            &&& s.entries.dom().contains(k) ==> row.comm == s.entries[k].comm
                && after.comm_cache[k] == s.comm_cache[k]
            &&& !s.entries.dom().contains(k) ==> row.comm == after.comm_cache[k] && row.comm
                == match comm_file {
                Some(text) => trimmed(text),
                None => if s.comm_cache.dom().contains(k) {
                    s.comm_cache[k]
                } else {
                    seq![]
                },
            }
        }),
        other != ev.flow() ==> {
            let after = s.with_event(ev, comm_file, now);
            &&& at(after.lifetime_rx, other) == at(s.lifetime_rx, other)
            &&& at(after.lifetime_tx, other) == at(s.lifetime_tx, other)
            &&& at(after.last_kernel_rx, other) == at(s.last_kernel_rx, other)
            &&& at(after.last_kernel_tx, other) == at(s.last_kernel_tx, other)
            &&& at(after.unseen_rx, other) == at(s.unseen_rx, other)
            &&& at(after.unseen_tx, other) == at(s.unseen_tx, other)
            &&& after.comm_cache.dom().contains(other) == s.comm_cache.dom().contains(other)
            &&& s.comm_cache.dom().contains(other) ==> after.comm_cache[other]
                == s.comm_cache[other]
            &&& after.entries.dom().contains(other) == s.entries.dom().contains(other)
            &&& s.entries.dom().contains(other) ==> after.entries[other] == s.entries[other]
        },
{
    assert(s.flow_wf(ev.flow()));
}

/// A key that the kernel has dropped is counted from zero, with nothing outstanding;
/// that is all that changes.
pub proof fn law_release_forgets_what_the_kernel_showed(
    s: TableState,
    key: TrafficKey,
    other: FlowKey,
)
    ensures
        ({
            let k = key.flow();
            let after = s.released(key);
            &&& at(after.last_kernel_rx, k) == 0
            &&& at(after.last_kernel_tx, k) == 0
            &&& at(after.unseen_rx, k) == 0
            &&& at(after.unseen_tx, k) == 0
            &&& after.lifetime_rx == s.lifetime_rx
            &&& after.lifetime_tx == s.lifetime_tx
            &&& after.entries == s.entries
            &&& after.comm_cache == s.comm_cache
            &&& after.prev_rx == s.prev_rx
            &&& after.prev_tx == s.prev_tx
        }),
        other != key.flow() ==> {
            let after = s.released(key);
            &&& at(after.last_kernel_rx, other) == at(s.last_kernel_rx, other)
            &&& at(after.last_kernel_tx, other) == at(s.last_kernel_tx, other)
            &&& at(after.unseen_rx, other) == at(s.unseen_rx, other)
            &&& at(after.unseen_tx, other) == at(s.unseen_tx, other)
        },
{
}

/// An eviction takes the rows that were last seen `ttl` or longer ago, and only
/// those. A row that was seen later than now has been quiet for no time. Rows that
/// stay are as they were, and nothing but rows goes.
pub proof fn law_eviction_takes_quiet_rows(s: TableState, ttl: u128, now: u128, k: FlowKey)
    requires
        s.entries.dom().contains(k),
    ensures
        ({
            let last = s.entries[k].last_seen;
            let after = s.evicted(ttl, now);
            &&& now >= last + ttl ==> !after.entries.dom().contains(k)
            &&& last <= now < last + ttl ==> after.entries.dom().contains(k)
            &&& now < last ==> (after.entries.dom().contains(k) <==> ttl > 0)
            &&& after.entries.dom().contains(k) ==> after.entries[k] == s.entries[k]
        }),
{
}

/// An eviction makes no row, and leaves every count and name as it was.
pub proof fn law_eviction_takes_rows_only(s: TableState, ttl: u128, now: u128)
    ensures
        ({
            let after = s.evicted(ttl, now);
            &&& after.entries.dom().subset_of(s.entries.dom())
            &&& after.lifetime_rx == s.lifetime_rx
            &&& after.lifetime_tx == s.lifetime_tx
            &&& after.last_kernel_rx == s.last_kernel_rx
            &&& after.last_kernel_tx == s.last_kernel_tx
            &&& after.unseen_rx == s.unseen_rx
            &&& after.unseen_tx == s.unseen_tx
            &&& after.prev_rx == s.prev_rx
            &&& after.prev_tx == s.prev_tx
            &&& after.comm_cache == s.comm_cache
        }),
{
}

/// A table that has seen nothing knows nothing.
pub proof fn law_empty_table_knows_nothing(k: FlowKey)
    ensures
        ({
            let s = TableState::empty();
            &&& !s.entries.dom().contains(k)
            &&& !s.comm_cache.dom().contains(k)
            &&& at(s.lifetime_rx, k) == 0
            &&& at(s.lifetime_tx, k) == 0
            &&& at(s.last_kernel_rx, k) == 0
            &&& at(s.last_kernel_tx, k) == 0
            &&& at(s.unseen_rx, k) == 0
            &&& at(s.unseen_tx, k) == 0
            &&& at(s.prev_rx, k) == 0
            &&& at(s.prev_tx, k) == 0
        }),
{
}

/// A snapshot lists the largest total first: the bytes received and sent of a row,
/// taken together, are no fewer than those of any row below it.
pub proof fn law_snapshot_lists_largest_total_first(
    s: TableState,
    rows: Seq<EbpfTrafficEntry>,
    now: u128,
    i: int,
    j: int,
)
    requires
        s.is_snapshot(rows_of(rows), now),
        0 <= i < j < rows.len(),
    ensures
        rows[i].rx_bytes + rows[i].tx_bytes >= rows[j].rx_bytes + rows[j].tx_bytes,
{
    let shown = rows_of(rows);
    assert(shown[i].total() >= shown[j].total());
}

/// A row of a snapshot shows what its flow has transferred in its lifetime. Of a live
/// flow it shows by how much that has grown since the last snapshot, when the flow
/// was last seen, and the row's name. Of a departed one it shows no growth, the time
/// of the snapshot, and the cached name; such a flow has transferred something.
pub proof fn law_snapshot_row_shows_its_flow(
    s: TableState,
    rows: Seq<EbpfTrafficEntry>,
    now: u128,
    i: int,
)
    requires
        s.wf(),
        s.is_snapshot(rows_of(rows), now),
        0 <= i < rows.len(),
    ensures
        ({
            let row = rows[i];
            let k = FlowKey {
                pid: row.pid,
                remote_addr: row.remote_addr,
                remote_port: row.remote_port,
            };
            &&& row.rx_bytes == at(s.lifetime_rx, k)
            &&& row.tx_bytes == at(s.lifetime_tx, k)
            &&& s.entries.dom().contains(k) ==> {
                &&& row.rx_delta == row.rx_bytes - at(s.prev_rx, k)
                &&& row.tx_delta == row.tx_bytes - at(s.prev_tx, k)
                &&& row.last_seen == s.entries[k].last_seen
                &&& row.comm@ == s.entries[k].comm
            }
            &&& !s.entries.dom().contains(k) ==> {
                &&& row.rx_bytes + row.tx_bytes != 0
                &&& row.rx_delta == 0
                &&& row.tx_delta == 0
                &&& row.last_seen == now
                &&& row.comm@ == if s.comm_cache.dom().contains(k) {
                    s.comm_cache[k]
                } else {
                    seq![]
                }
            }
        }),
{
    let shown = rows_of(rows)[i];
    let k = shown.flow();
    assert(shown == rows[i]@);
    assert(s.flow_wf(k));
    assert(k == FlowKey {
        pid: rows[i].pid,
        remote_addr: rows[i].remote_addr,
        remote_port: rows[i].remote_port,
    });
}

/// A snapshot has one row for each flow that is live or has transferred anything.
pub proof fn law_snapshot_has_each_flow_once(
    s: TableState,
    rows: Seq<EbpfTrafficEntry>,
    now: u128,
    k: FlowKey,
)
    requires
        s.is_snapshot(rows_of(rows), now),
    ensures
        s.entries.dom().contains(k) || at(s.lifetime_rx, k) + at(s.lifetime_tx, k) != 0
            ==> exists|i: int|
            0 <= i < rows.len() && (#[trigger] rows[i]).pid == k.pid && rows[i].remote_addr
                == k.remote_addr && rows[i].remote_port == k.remote_port,
        forall|i: int, j: int|
            0 <= i < j < rows.len() ==> !((#[trigger] rows[i]).pid == (#[trigger] rows[j]).pid
                && rows[i].remote_addr == rows[j].remote_addr && rows[i].remote_port
                == rows[j].remote_port),
{
    let shown = rows_of(rows);
    if s.is_reported(k) {
        let i = choose|i: int| 0 <= i < shown.len() && (#[trigger] shown[i]).flow() == k;
        assert(shown[i] == rows[i]@);
    }
    assert forall|i: int, j: int| 0 <= i < j < rows.len() implies !((#[trigger] rows[i]).pid == (
    #[trigger] rows[j]).pid && rows[i].remote_addr == rows[j].remote_addr && rows[i].remote_port
        == rows[j].remote_port) by {
        assert(shown[i] == rows[i]@ && shown[j] == rows[j]@);
        assert(shown[i].flow() != shown[j].flow());
    }
}

/// After a snapshot, what it showed is what the next one counts growth from. Nothing
/// else changes but what the live rows show.
pub proof fn law_snapshot_is_where_growth_starts_anew(s: TableState, k: FlowKey)
    ensures
        ({
            let after = s.snapshotted();
            &&& at(after.prev_rx, k) == at(s.lifetime_rx, k)
            &&& at(after.prev_tx, k) == at(s.lifetime_tx, k)
            &&& after.lifetime_rx == s.lifetime_rx
            &&& after.lifetime_tx == s.lifetime_tx
            &&& after.last_kernel_rx == s.last_kernel_rx
            &&& after.last_kernel_tx == s.last_kernel_tx
            &&& after.unseen_rx == s.unseen_rx
            &&& after.unseen_tx == s.unseen_tx
            &&& after.comm_cache == s.comm_cache
            &&& after.entries.dom().contains(k) == s.entries.dom().contains(k)
            &&& s.entries.dom().contains(k) ==> after.entries[k].comm == s.entries[k].comm
                && after.entries[k].last_seen == s.entries[k].last_seen
        }),
{
}

/// A snapshot can be taken where the bytes of each flow, received and sent taken
/// together, fit in a count. Where they do not, of a departed flow or of one of two
/// flows, it cannot.
pub proof fn law_snapshot_can_be_taken_where_totals_fit(s: TableState, k: FlowKey, other: FlowKey)
    ensures
        (forall|q: FlowKey| #[trigger]
            at(s.lifetime_rx, q) + at(s.lifetime_tx, q) <= u64::MAX) ==> s.can_snapshot(),
        at(s.lifetime_rx, k) + at(s.lifetime_tx, k) > u64::MAX && !s.entries.dom().contains(k)
            ==> !s.can_snapshot(),
        at(s.lifetime_rx, k) + at(s.lifetime_tx, k) > u64::MAX && other != k && (
        s.entries.dom().contains(other) || at(s.lifetime_rx, other) + at(s.lifetime_tx, other) != 0)
            ==> !s.can_snapshot(),
{
    if forall|q: FlowKey| #[trigger]
        at(s.lifetime_rx, q) + at(s.lifetime_tx, q) <= u64::MAX {
        assert forall|q: FlowKey| #[trigger]
            s.is_reported(q) && (!s.is_live(q) || s.has_other(q)) implies s.reported_total(q)
            <= u64::MAX by {
            assert(at(s.lifetime_rx, q) + at(s.lifetime_tx, q) <= u64::MAX);
        }
    }
    assert(s.reported_total(k) == at(s.lifetime_rx, k) + at(s.lifetime_tx, k));
    if at(s.lifetime_rx, k) + at(s.lifetime_tx, k) > u64::MAX {
        assert(s.is_reported(k));
        if other != k && (s.entries.dom().contains(other) || at(s.lifetime_rx, other) + at(
            s.lifetime_tx,
            other,
        ) != 0) {
            assert(s.is_reported(other));
            assert(s.has_other(k));
        }
    }
}

} // verus!
