use vstd::prelude::*;

use crate::order::{order_records, ordered_by};
use crate::ranking::{RankingState, SortColumn, SortDirection};
use crate::record::{build_record, records_of, ProcessRecord, RawProcess};

verus! {

/// The authoritative in-memory process table: the most recent
/// normalized, ordered rows, the ranking state that ordered them, and
/// a generation count. The table holds exactly one generation of rows
/// at a time; a refresh replaces the rows wholesale and bumps the
/// count, while a column selection re-orders the rows it already has.
///
/// The table is single-writer: the host serialises refreshes, column
/// selections and kill requests and performs all OS calls itself,
/// handing raw snapshots in as plain values.
pub struct ProcessTable {
    /// The rows currently displayed, in display order.
    pub records: Vec<ProcessRecord>,
    /// The active sort column and direction.
    pub ranking: RankingState,
    /// How many snapshot replacements the table has performed.
    pub generation: u64,
}

impl ProcessTable {
    /// An empty table ranked by PID ascending, the default state
    /// before the first refresh.
    pub fn new() -> (t: ProcessTable)
        ensures
            t.records@ == Seq::<ProcessRecord>::empty(),
            t.ranking == (RankingState {
                column: SortColumn::Pid,
                direction: SortDirection::Ascending,
            }),
            t.generation == 0,
    {
        ProcessTable {
            records: Vec::new(),
            ranking: RankingState {
                column: SortColumn::Pid,
                direction: SortDirection::Ascending,
            },
            generation: 0,
        }
    }

    /// Replaces the visible rows with a fresh snapshot: normalises one
    /// row per raw entry, orders the set under the held ranking state,
    /// and installs the result atomically as the next generation. The
    /// input order of the snapshot is irrelevant; the ranking state is
    /// untouched.
    pub fn refresh(&mut self, snapshot: Vec<RawProcess>)
        requires
            old(self).generation < u64::MAX,
        ensures
            final(self).ranking == old(self).ranking,
            final(self).generation == old(self).generation + 1,
            final(self).records@ == ordered_by(old(self).ranking, records_of(snapshot@)),
    {
        let ghost raw: Seq<RawProcess> = snapshot@;
        let mut entries = snapshot;
        let mut rows: Vec<ProcessRecord> = Vec::new();
        proof {
            assert(raw.skip(0) =~= raw);
            assert(rows@ =~= records_of(raw.take(0)));
        }
        while entries.len() > 0
            invariant
                entries@.len() <= raw.len(),
                entries@ == raw.skip(raw.len() - entries@.len()),
                rows@ == records_of(raw.take(raw.len() - entries@.len())),
            decreases entries.len(),
        {
            let ghost k: int = raw.len() - entries@.len();
            let entry = entries.remove(0);
            let row = build_record(entry);
            rows.push(row);
            proof {
                assert(entry == raw[k]);
                assert(entries@ =~= raw.skip(k + 1));
                assert(rows@ =~= records_of(raw.take(k + 1)));
            }
        }
        proof {
            assert(raw.take(raw.len() as int) =~= raw);
        }
        self.records = order_records(self.ranking, rows);
        self.generation = self.generation + 1;
    }

    /// The ranking engine's cheap path: updates the ranking state for
    /// the requested column — reselecting the active column flips the
    /// direction, any other column becomes active ascending — and
    /// re-orders the rows already on display. No snapshot is taken and
    /// no new rows appear: the generation count is unchanged.
    pub fn select_column(&mut self, requested: SortColumn)
        ensures
            final(self).ranking == old(self).ranking.selected(requested),
            final(self).generation == old(self).generation,
            final(self).records@ == ordered_by(final(self).ranking, old(self).records@),
    {
        self.ranking.select_column(requested);
        let mut taken: Vec<ProcessRecord> = Vec::new();
        core::mem::swap(&mut taken, &mut self.records);
        self.records = order_records(self.ranking, taken);
    }

    /// The termination mediator's reconciliation, fire-and-reconcile:
    /// the host forwards the kill request for `pid` to its process
    /// controller — a stale pid simply finds no process there — then
    /// takes a fresh snapshot and hands it here. Whatever became of
    /// the termination request, found or not, killed or refused, the
    /// table performs exactly one refresh-equivalent replacement, so
    /// the display reconciles with OS reality on the spot.
    #[allow(unused_variables)]
    pub fn kill(&mut self, pid: u32, fresh_snapshot: Vec<RawProcess>)
        requires
            old(self).generation < u64::MAX,
        ensures
            final(self).ranking == old(self).ranking,
            final(self).generation == old(self).generation + 1,
            final(self).records@ == ordered_by(old(self).ranking, records_of(fresh_snapshot@)),
    {
        self.refresh(fresh_snapshot);
    }
}

} // verus!
