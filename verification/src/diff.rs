//! Delta computation between two snapshots. The statistics columns are
//! cumulative counters, so what happened between snapshot A and snapshot B
//! is B - A, with a counter that went down (a reset inside the interval)
//! reported by its post-reset value.

use crate::model::{DatabaseStat, Snapshot, TableStat};
use crate::timestamp::Timestamp;
use vstd::prelude::*;

verus! {

broadcast use vstd::seq_lib::group_seq_properties;

/// Why two snapshots cannot be compared.
#[derive(Clone, Debug, PartialEq)]
pub enum DiffError {
    /// The snapshots come from different databases.
    DifferentDatabase { before: String, after: String },
    /// The "after" snapshot is not later than the "before" one.
    NonPositiveElapsed { before: Timestamp, after: Timestamp },
}

/// What one table did during the interval.
#[derive(Clone, Debug, PartialEq)]
pub struct TableDelta {
    pub schema: String,
    pub table: String,
    pub seq_scan: i64,
    pub idx_scan: i64,
    pub n_tup_ins: i64,
    pub n_tup_upd: i64,
    pub n_tup_del: i64,
    pub live_tup_delta: i64,
    pub dead_tup_delta: i64,
}

/// The interval report. The rates and the cache hit ratio as fractions are
/// derived from these integers by dividing by the elapsed time and by the
/// block total.
#[derive(Clone, Debug, PartialEq)]
pub struct DeltaReport {
    /// Milliseconds between the two snapshots (always positive).
    pub elapsed_millis: i64,
    pub reset_detected: bool,
    pub commits: i64,
    pub rollbacks: i64,
    /// Cache hit ratio over this interval's reads only, as
    /// (blocks hit, blocks hit + blocks read); absent when no block was
    /// touched during the interval.
    pub cache_hit_ratio: Option<(i64, i64)>,
    pub rows_read: i64,
    pub rows_written: i64,
    pub temp_files: i64,
    pub temp_bytes: i64,
    pub deadlocks: i64,
    pub numbackends_before: i64,
    pub numbackends_after: i64,
    /// Per-table deltas, busiest (by rows inserted, updated and deleted)
    /// first; tables as busy as each other keep the order of the "after"
    /// snapshot.
    pub tables: Vec<TableDelta>,
}

/// The value lies in the range of `i64`.
pub open spec fn fits_i64(x: int) -> bool {
    i64::MIN <= x <= i64::MAX
}

/// A cumulative counter's change over the interval: the difference, or the
/// post-reset value itself where the counter went down.
pub open spec fn counter_delta(before: i64, after: i64) -> int {
    if after < before {
        after as int
    } else {
        after - before
    }
}

/// Rows a table's delta inserted, updated and deleted together.
pub open spec fn writes_of(t: TableDelta) -> int {
    t.n_tup_ins + t.n_tup_upd + t.n_tup_del
}

/// `total_writes` can add the three counters without leaving `i64`.
pub open spec fn writes_fit(t: TableDelta) -> bool {
    fits_i64(t.n_tup_ins + t.n_tup_upd) && fits_i64(writes_of(t))
}

impl TableDelta {
    /// Rows inserted, updated and deleted during the interval.
    pub fn total_writes(&self) -> (r: i64)
        requires
            writes_fit(*self),
        ensures
            r == writes_of(*self),
    {
        self.n_tup_ins + self.n_tup_upd + self.n_tup_del
    }
}

/// The delta of one cumulative counter. A counter that went down was reset
/// mid-interval (`pg_stat_reset()` or a restart): the post-reset value is
/// reported instead of a negative number, and `reset_detected` is raised.
pub fn non_negative_delta(before: i64, after: i64, reset_detected: &mut bool) -> (d: i64)
    requires
        fits_i64(after - before),
    ensures
        d == counter_delta(before, after),
        *final(reset_detected) == (*old(reset_detected) || after < before),
{
    let d: i64 = after - before;
    if d < 0 {
        *reset_detected = true;
        after
    } else {
        d
    }
}

/// Two table rows name the same table.
pub open spec fn same_key(x: TableStat, y: TableStat) -> bool {
    x.schema@ == y.schema@ && x.table@ == y.table@
}

/// The last row of `tables` with `t`'s key: rows keyed by table, where a
/// later row replaces an earlier one with the same key.
pub open spec fn last_with_key(tables: Seq<TableStat>, t: TableStat) -> Option<TableStat>
    decreases tables.len(),
{
    if tables.len() == 0 {
        None
    } else if same_key(tables.last(), t) {
        Some(tables.last())
    } else {
        last_with_key(tables.drop_last(), t)
    }
}

/// Index of the last row of `tables` with `t`'s key.
fn find_last(tables: &Vec<TableStat>, t: &TableStat) -> (r: Option<usize>)
    ensures
        match r {
            Some(j) => j < tables@.len() && last_with_key(tables@, *t) == Some(tables@[j as int]),
            None => last_with_key(tables@, *t) is None,
        },
{
    let mut i = tables.len();
    assert(tables@.take(i as int) =~= tables@);
    while i > 0
        invariant
            i <= tables@.len(),
            last_with_key(tables@, *t) == last_with_key(tables@.take(i as int), *t),
        decreases i,
    {
        assert(tables@.take(i as int).drop_last() =~= tables@.take(i - 1));
        let row = &tables[i - 1];
        if row.schema == t.schema && row.table == t.table {
            return Some(i - 1);
        }
        i = i - 1;
    }
    None
}

/// The rows-written predicate for one value.
pub open spec fn has_writes(w: int) -> spec_fn(TableDelta) -> bool {
    |t: TableDelta| writes_of(t) == w
}

/// The table deltas of `s` that wrote exactly `w` rows, in their order in `s`.
pub open spec fn with_writes(s: Seq<TableDelta>, w: int) -> Seq<TableDelta> {
    s.filter(has_writes(w))
}

/// Busiest first: rows written never increase along the sequence.
pub open spec fn busiest_first(s: Seq<TableDelta>) -> bool {
    forall|i: int, j: int| 0 <= i < j < s.len() ==> writes_of(s[i]) >= writes_of(s[j])
}

/// Every delta of `s` can have its rows written added up in `i64`.
pub open spec fn all_writes_fit(s: Seq<TableDelta>) -> bool {
    forall|i: int| 0 <= i < s.len() ==> writes_fit(#[trigger] s[i])
}

/// `r` is `m` ordered busiest first, stably: deltas that wrote the same
/// number of rows keep their relative order from `m`. (With the ordering,
/// this determines `r` from `m`.)
pub open spec fn stably_busiest_first(r: Seq<TableDelta>, m: Seq<TableDelta>) -> bool {
    &&& busiest_first(r)
    &&& r.len() == m.len()
    &&& forall|w: int| #[trigger] with_writes(r, w) == with_writes(m, w)
}

proof fn lemma_with_writes_none(s: Seq<TableDelta>, w: int)
    requires
        forall|i: int| 0 <= i < s.len() ==> writes_of(#[trigger] s[i]) != w,
    ensures
        with_writes(s, w) =~= Seq::<TableDelta>::empty(),
    decreases s.len(),
{
    reveal(Seq::filter);
    if s.len() > 0 {
        lemma_with_writes_none(s.drop_last(), w);
    }
}

proof fn lemma_with_writes_single(d: TableDelta, w: int)
    ensures
        with_writes(seq![d], w) == (if writes_of(d) == w {
            seq![d]
        } else {
            Seq::<TableDelta>::empty()
        }),
{
    reveal_with_fuel(Seq::filter, 2);
    assert(seq![d].drop_last() =~= Seq::<TableDelta>::empty());
}

/// Inserts `d` after every delta that wrote at least as many rows.
fn insert_by_writes(r: &mut Vec<TableDelta>, d: TableDelta)
    requires
        busiest_first(old(r)@),
        all_writes_fit(old(r)@),
        writes_fit(d),
    ensures
        busiest_first(final(r)@),
        all_writes_fit(final(r)@),
        final(r)@.len() == old(r)@.len() + 1,
        forall|w: int|
            #[trigger] with_writes(final(r)@, w) == if writes_of(d) == w {
                with_writes(old(r)@, w).push(d)
            } else {
                with_writes(old(r)@, w)
            },
{
    let key: i64 = d.total_writes();
    let mut pos = r.len();
    while pos > 0 && r[pos - 1].total_writes() < key
        invariant
            pos <= r@.len(),
            busiest_first(r@),
            all_writes_fit(r@),
            forall|k: int| pos <= k < r@.len() ==> writes_of(#[trigger] r@[k]) < key,
        decreases pos,
    {
        pos = pos - 1;
    }
    let ghost before = r@;
    r.insert(pos, d);
    proof {
        let a = before.subrange(0, pos as int);
        let b = before.subrange(pos as int, before.len() as int);
        before.insert_ensures(pos as int, d);
        assert(before =~= a + b);
        assert(r@ =~= (a + seq![d]) + b);
        assert forall|k: int| 0 <= k < pos implies writes_of(#[trigger] before[k]) >= key by {
            if k < pos - 1 {
                assert(writes_of(before[k]) >= writes_of(before[pos - 1]));
            }
        }
        assert forall|i: int, j: int| 0 <= i < j < r@.len() implies writes_of(r@[i]) >= writes_of(
            r@[j],
        ) by {
            if i < pos && j > pos {
                assert(r@[i] == before[i]);
                assert(r@[j] == before[j - 1]);
            } else if i < pos && j < pos {
                assert(r@[i] == before[i]);
                assert(r@[j] == before[j]);
            } else if i > pos {
                assert(r@[i] == before[i - 1]);
                assert(r@[j] == before[j - 1]);
            }
        }
        assert forall|i: int| 0 <= i < r@.len() implies writes_fit(#[trigger] r@[i]) by {
            if i < pos {
                assert(r@[i] == before[i]);
            } else if i > pos {
                assert(r@[i] == before[i - 1]);
            }
        }
        assert forall|w: int|
            #[trigger] with_writes(r@, w) == if writes_of(d) == w {
                with_writes(before, w).push(d)
            } else {
                with_writes(before, w)
            } by {
            Seq::filter_distributes_over_add(a + seq![d], b, has_writes(w));
            Seq::filter_distributes_over_add(a, seq![d], has_writes(w));
            Seq::filter_distributes_over_add(a, b, has_writes(w));
            lemma_with_writes_single(d, w);
            if writes_of(d) == w {
                assert forall|i: int| 0 <= i < b.len() implies writes_of(#[trigger] b[i]) != w by {
                    assert(b[i] == before[pos + i]);
                }
                lemma_with_writes_none(b, w);
                assert(with_writes(r@, w) =~= with_writes(before, w).push(d));
            } else {
                assert(with_writes(r@, w) =~= with_writes(before, w));
            }
        }
    }
}

proof fn lemma_with_writes_push(m: Seq<TableDelta>, d: TableDelta, w: int)
    ensures
        with_writes(m.push(d), w) == if writes_of(d) == w {
            with_writes(m, w).push(d)
        } else {
            with_writes(m, w)
        },
{
    reveal_with_fuel(Seq::filter, 1);
    assert(m.push(d).drop_last() =~= m);
}

/// A table's delta from its "before" row `b` to its "after" row `a`.
pub open spec fn table_delta(b: TableStat, a: TableStat) -> TableDelta {
    TableDelta {
        schema: a.schema,
        table: a.table,
        seq_scan: counter_delta(b.seq_scan, a.seq_scan) as i64,
        idx_scan: counter_delta(b.idx_scan, a.idx_scan) as i64,
        n_tup_ins: counter_delta(b.n_tup_ins, a.n_tup_ins) as i64,
        n_tup_upd: counter_delta(b.n_tup_upd, a.n_tup_upd) as i64,
        n_tup_del: counter_delta(b.n_tup_del, a.n_tup_del) as i64,
        live_tup_delta: (a.n_live_tup - b.n_live_tup) as i64,
        dead_tup_delta: (a.n_dead_tup - b.n_dead_tup) as i64,
    }
}

/// One of the table's cumulative counters went down.
pub open spec fn table_dropped(b: TableStat, a: TableStat) -> bool {
    ||| a.seq_scan < b.seq_scan
    ||| a.idx_scan < b.idx_scan
    ||| a.n_tup_ins < b.n_tup_ins
    ||| a.n_tup_upd < b.n_tup_upd
    ||| a.n_tup_del < b.n_tup_del
}

/// Every subtraction and sum for one table's delta stays in `i64`.
pub open spec fn table_counters_fit(b: TableStat, a: TableStat) -> bool {
    &&& fits_i64(a.seq_scan - b.seq_scan)
    &&& fits_i64(a.idx_scan - b.idx_scan)
    &&& fits_i64(a.n_tup_ins - b.n_tup_ins)
    &&& fits_i64(a.n_tup_upd - b.n_tup_upd)
    &&& fits_i64(a.n_tup_del - b.n_tup_del)
    &&& fits_i64(a.n_live_tup - b.n_live_tup)
    &&& fits_i64(a.n_dead_tup - b.n_dead_tup)
    &&& writes_fit(table_delta(b, a))
}

/// The table saw no activity during the interval: every delta is zero.
pub open spec fn is_idle(t: TableDelta) -> bool {
    &&& t.seq_scan == 0
    &&& t.idx_scan == 0
    &&& t.n_tup_ins == 0
    &&& t.n_tup_upd == 0
    &&& t.n_tup_del == 0
    &&& t.live_tup_delta == 0
    &&& t.dead_tup_delta == 0
}

/// Whether the delta shows no activity.
fn shows_no_activity(t: &TableDelta) -> (r: bool)
    ensures
        r == is_idle(*t),
{
    t.seq_scan == 0 && t.idx_scan == 0 && t.n_tup_ins == 0 && t.n_tup_upd == 0 && t.n_tup_del == 0
        && t.live_tup_delta == 0 && t.dead_tup_delta == 0
}

/// The deltas of the "after" rows that have a "before" row with their key,
/// in "after" order, leaving out tables with no activity; a row with no
/// "before" row (a table created during the interval) has no delta, and a
/// table dropped during the interval has no "after" row.
pub open spec fn matched_deltas(before: Seq<TableStat>, after: Seq<TableStat>) -> Seq<TableDelta>
    decreases after.len(),
{
    if after.len() == 0 {
        Seq::empty()
    } else {
        let rest = matched_deltas(before, after.drop_last());
        match last_with_key(before, after.last()) {
            Some(b) => if is_idle(table_delta(b, after.last())) {
                rest
            } else {
                rest.push(table_delta(b, after.last()))
            },
            None => rest,
        }
    }
}

/// Some table present in both snapshots has a counter that went down.
pub open spec fn any_table_dropped(before: Seq<TableStat>, after: Seq<TableStat>) -> bool
    decreases after.len(),
{
    if after.len() == 0 {
        false
    } else {
        ||| any_table_dropped(before, after.drop_last())
        ||| match last_with_key(before, after.last()) {
            Some(b) => table_dropped(b, after.last()),
            None => false,
        }
    }
}

/// Every matched table's delta stays in `i64`.
pub open spec fn tables_fit(before: Seq<TableStat>, after: Seq<TableStat>) -> bool {
    forall|i: int|
        0 <= i < after.len() ==> match #[trigger] last_with_key(before, after[i]) {
            Some(b) => table_counters_fit(b, after[i]),
            None => true,
        }
}

/// The delta of every table present in both snapshots, busiest first.
fn table_deltas(before: &Vec<TableStat>, after: &Vec<TableStat>, reset_detected: &mut bool) -> (r: Vec<
    TableDelta,
>)
    requires
        tables_fit(before@, after@),
    ensures
        stably_busiest_first(r@, matched_deltas(before@, after@)),
        *final(reset_detected) == (*old(reset_detected) || any_table_dropped(before@, after@)),
{
    let mut deltas: Vec<TableDelta> = Vec::new();
    let mut dropped = false;
    let mut i: usize = 0;
    while i < after.len()
        invariant
            i <= after@.len(),
            tables_fit(before@, after@),
            stably_busiest_first(deltas@, matched_deltas(before@, after@.take(i as int))),
            all_writes_fit(deltas@),
            dropped == any_table_dropped(before@, after@.take(i as int)),
        decreases after@.len() - i,
    {
        let ghost m = matched_deltas(before@, after@.take(i as int));
        assert(after@.take(i + 1).drop_last() =~= after@.take(i as int));
        assert(after@.take(i + 1).last() == after@[i as int]);
        let t = &after[i];
        match find_last(before, t) {
            Some(j) => {
                let b = &before[j];
                assert(table_counters_fit(*b, *t));
                let seq_scan = non_negative_delta(b.seq_scan, t.seq_scan, &mut dropped);
                let idx_scan = non_negative_delta(b.idx_scan, t.idx_scan, &mut dropped);
                let n_tup_ins = non_negative_delta(b.n_tup_ins, t.n_tup_ins, &mut dropped);
                let n_tup_upd = non_negative_delta(b.n_tup_upd, t.n_tup_upd, &mut dropped);
                let n_tup_del = non_negative_delta(b.n_tup_del, t.n_tup_del, &mut dropped);
                let d = TableDelta {
                    schema: t.schema.clone(),
                    table: t.table.clone(),
                    seq_scan,
                    idx_scan,
                    n_tup_ins,
                    n_tup_upd,
                    n_tup_del,
                    live_tup_delta: t.n_live_tup - b.n_live_tup,
                    dead_tup_delta: t.n_dead_tup - b.n_dead_tup,
                };
                assert(d == table_delta(*b, *t));
                if !shows_no_activity(&d) {
                    let ghost old_deltas = deltas@;
                    insert_by_writes(&mut deltas, d);
                    proof {
                        assert forall|w: int| #[trigger]
                            with_writes(deltas@, w) == with_writes(m.push(d), w) by {
                            lemma_with_writes_push(m, d, w);
                            assert(with_writes(old_deltas, w) == with_writes(m, w));
                        }
                    }
                }
            },
            None => {},
        }
        i = i + 1;
    }
    assert(after@.take(after@.len() as int) =~= after@);
    if dropped {
        *reset_detected = true;
    }
    deltas
}

/// One of the database's cumulative counters went down.
pub open spec fn database_dropped(b: DatabaseStat, a: DatabaseStat) -> bool {
    ||| a.xact_commit < b.xact_commit
    ||| a.xact_rollback < b.xact_rollback
    ||| a.blks_read < b.blks_read
    ||| a.blks_hit < b.blks_hit
    ||| a.tup_returned < b.tup_returned
    ||| a.tup_fetched < b.tup_fetched
    ||| a.tup_inserted < b.tup_inserted
    ||| a.tup_updated < b.tup_updated
    ||| a.tup_deleted < b.tup_deleted
    ||| a.temp_files < b.temp_files
    ||| a.temp_bytes < b.temp_bytes
    ||| a.deadlocks < b.deadlocks
}

/// Every subtraction and sum of the database-wide report stays in `i64`.
pub open spec fn database_counters_fit(b: DatabaseStat, a: DatabaseStat) -> bool {
    &&& fits_i64(a.xact_commit - b.xact_commit)
    &&& fits_i64(a.xact_rollback - b.xact_rollback)
    &&& fits_i64(a.blks_read - b.blks_read)
    &&& fits_i64(a.blks_hit - b.blks_hit)
    &&& fits_i64(a.tup_returned - b.tup_returned)
    &&& fits_i64(a.tup_fetched - b.tup_fetched)
    &&& fits_i64(a.tup_inserted - b.tup_inserted)
    &&& fits_i64(a.tup_updated - b.tup_updated)
    &&& fits_i64(a.tup_deleted - b.tup_deleted)
    &&& fits_i64(a.temp_files - b.temp_files)
    &&& fits_i64(a.temp_bytes - b.temp_bytes)
    &&& fits_i64(a.deadlocks - b.deadlocks)
    &&& fits_i64(counter_delta(b.blks_hit, a.blks_hit) + counter_delta(b.blks_read, a.blks_read))
    &&& fits_i64(
        counter_delta(b.tup_returned, a.tup_returned) + counter_delta(b.tup_fetched, a.tup_fetched),
    )
    &&& fits_i64(
        counter_delta(b.tup_inserted, a.tup_inserted) + counter_delta(b.tup_updated, a.tup_updated),
    )
    &&& fits_i64(
        counter_delta(b.tup_inserted, a.tup_inserted) + counter_delta(b.tup_updated, a.tup_updated)
            + counter_delta(b.tup_deleted, a.tup_deleted),
    )
}

/// The whole report can be computed without leaving `i64`.
pub open spec fn counters_fit(before: Snapshot, after: Snapshot) -> bool {
    &&& database_counters_fit(before.database, after.database)
    &&& tables_fit(before.tables@, after.tables@)
}

/// A reset shows as a new (present) reset time, or as any counter that went
/// down.
pub open spec fn reset_in_interval(before: Snapshot, after: Snapshot) -> bool {
    ||| (before.database.stats_reset != after.database.stats_reset
        && after.database.stats_reset is Some)
    ||| database_dropped(before.database, after.database)
    ||| any_table_dropped(before.tables@, after.tables@)
}

/// Cache hits over the interval's block accesses only, present when any
/// block was accessed.
pub open spec fn interval_cache_hits(b: DatabaseStat, a: DatabaseStat) -> Option<(i64, i64)> {
    let hit = counter_delta(b.blks_hit, a.blks_hit);
    let read = counter_delta(b.blks_read, a.blks_read);
    if hit + read > 0 {
        Some((hit as i64, (hit + read) as i64))
    } else {
        None
    }
}

/// `rep` is the report of the interval from `before` to `after` lasting
/// `elapsed` milliseconds.
pub open spec fn describes_interval(
    rep: DeltaReport,
    before: Snapshot,
    after: Snapshot,
    elapsed: i64,
) -> bool {
    let b = before.database;
    let a = after.database;
    &&& rep.elapsed_millis == elapsed
    &&& rep.reset_detected == reset_in_interval(before, after)
    &&& rep.commits == counter_delta(b.xact_commit, a.xact_commit)
    &&& rep.rollbacks == counter_delta(b.xact_rollback, a.xact_rollback)
    &&& rep.cache_hit_ratio == interval_cache_hits(b, a)
    &&& rep.rows_read == counter_delta(b.tup_returned, a.tup_returned) + counter_delta(
        b.tup_fetched,
        a.tup_fetched,
    )
    &&& rep.rows_written == counter_delta(b.tup_inserted, a.tup_inserted) + counter_delta(
        b.tup_updated,
        a.tup_updated,
    ) + counter_delta(b.tup_deleted, a.tup_deleted)
    &&& rep.temp_files == counter_delta(b.temp_files, a.temp_files)
    &&& rep.temp_bytes == counter_delta(b.temp_bytes, a.temp_bytes)
    &&& rep.deadlocks == counter_delta(b.deadlocks, a.deadlocks)
    &&& rep.numbackends_before == b.numbackends
    &&& rep.numbackends_after == a.numbackends
    &&& stably_busiest_first(rep.tables@, matched_deltas(before.tables@, after.tables@))
}

/// The outcome of diffing `before` against `after` when `elapsed`
/// milliseconds lie between them: different databases are refused first,
/// then an interval that is not positive, and otherwise the report.
pub open spec fn diff_outcome(
    r: Result<DeltaReport, DiffError>,
    before: Snapshot,
    after: Snapshot,
    elapsed: i64,
) -> bool {
    if before.database_name@ != after.database_name@ {
        r == Err::<DeltaReport, DiffError>(
            DiffError::DifferentDatabase { before: before.database_name, after: after.database_name },
        )
    } else if elapsed <= 0 {
        r == Err::<DeltaReport, DiffError>(
            DiffError::NonPositiveElapsed { before: before.taken_at, after: after.taken_at },
        )
    } else {
        r matches Ok(rep) && describes_interval(rep, before, after, elapsed)
    }
}

/// The report of the interval from `before` to `after`, given the
/// milliseconds that separate them.
pub fn compute_with_elapsed(before: &Snapshot, after: &Snapshot, elapsed_millis: i64) -> (r: Result<
    DeltaReport,
    DiffError,
>)
    requires
        before.database_name@ == after.database_name@ && elapsed_millis > 0 ==> counters_fit(
            *before,
            *after,
        ),
    ensures
        diff_outcome(r, *before, *after, elapsed_millis),
{
    if before.database_name != after.database_name {
        return Err(
            DiffError::DifferentDatabase {
                before: before.database_name.clone(),
                after: after.database_name.clone(),
            },
        );
    }
    if elapsed_millis <= 0 {
        return Err(DiffError::NonPositiveElapsed { before: before.taken_at, after: after.taken_at });
    }
    let b = &before.database;
    let a = &after.database;
    let mut reset_detected = !Timestamp::same_optional(&b.stats_reset, &a.stats_reset)
        && a.stats_reset.is_some();

    let commits = non_negative_delta(b.xact_commit, a.xact_commit, &mut reset_detected);
    let rollbacks = non_negative_delta(b.xact_rollback, a.xact_rollback, &mut reset_detected);
    let blks_read = non_negative_delta(b.blks_read, a.blks_read, &mut reset_detected);
    let blks_hit = non_negative_delta(b.blks_hit, a.blks_hit, &mut reset_detected);
    let tup_returned = non_negative_delta(b.tup_returned, a.tup_returned, &mut reset_detected);
    let tup_fetched = non_negative_delta(b.tup_fetched, a.tup_fetched, &mut reset_detected);
    let tup_inserted = non_negative_delta(b.tup_inserted, a.tup_inserted, &mut reset_detected);
    let tup_updated = non_negative_delta(b.tup_updated, a.tup_updated, &mut reset_detected);
    let tup_deleted = non_negative_delta(b.tup_deleted, a.tup_deleted, &mut reset_detected);
    let temp_files = non_negative_delta(b.temp_files, a.temp_files, &mut reset_detected);
    let temp_bytes = non_negative_delta(b.temp_bytes, a.temp_bytes, &mut reset_detected);
    let deadlocks = non_negative_delta(b.deadlocks, a.deadlocks, &mut reset_detected);

    let cache_hit_ratio = if blks_hit + blks_read > 0 {
        Some((blks_hit, blks_hit + blks_read))
    } else {
        None
    };

    let rows_read: i64 = tup_returned + tup_fetched;
    let rows_written: i64 = tup_inserted + tup_updated + tup_deleted;

    let tables = table_deltas(&before.tables, &after.tables, &mut reset_detected);

    Ok(
        DeltaReport {
            elapsed_millis,
            reset_detected,
            commits,
            rollbacks,
            cache_hit_ratio,
            rows_read,
            rows_written,
            temp_files,
            temp_bytes,
            deadlocks,
            numbackends_before: b.numbackends,
            numbackends_after: a.numbackends,
            tables,
        },
    )
}

/// The report of the interval from `before` to `after`: the elapsed time
/// is measured by chrono between the two snapshot instants, then as
/// `compute_with_elapsed`.
pub fn compute(before: &Snapshot, after: &Snapshot) -> (r: Result<DeltaReport, DiffError>)
    requires
        before.database_name@ == after.database_name@ && crate::timestamp::chrono_elapsed_millis(
            before.taken_at@.0,
            before.taken_at@.1,
            after.taken_at@.0,
            after.taken_at@.1,
        ) > 0 ==> counters_fit(*before, *after),
    ensures
        diff_outcome(
            r,
            *before,
            *after,
            crate::timestamp::chrono_elapsed_millis(
                before.taken_at@.0,
                before.taken_at@.1,
                after.taken_at@.0,
                after.taken_at@.1,
            ),
        ),
        crate::timestamp::outside_leap_second(before.taken_at@) && crate::timestamp::outside_leap_second(after.taken_at@)
            ==> crate::timestamp::chrono_elapsed_millis(
            before.taken_at@.0,
            before.taken_at@.1,
            after.taken_at@.0,
            after.taken_at@.1,
        ) == crate::timestamp::trunc_div(
            crate::timestamp::epoch_nanos(after.taken_at@.0, after.taken_at@.1) - crate::timestamp::epoch_nanos(
                before.taken_at@.0,
                before.taken_at@.1,
            ),
            1_000_000,
        ),
{
    let elapsed_millis: i64 = after.taken_at.millis_since(&before.taken_at);
    compute_with_elapsed(before, after, elapsed_millis)
}

/// `compute` where it can run: `None` exactly when the snapshots are of one
/// database, the interval is positive, and some subtraction or sum of the
/// report would leave `i64`; otherwise `compute`'s outcome.
pub fn compute_checked(before: &Snapshot, after: &Snapshot) -> (r: Option<
    Result<DeltaReport, DiffError>,
>)
    ensures
        r is None <==> (before.database_name@ == after.database_name@ && crate::timestamp::chrono_elapsed_millis(
            before.taken_at@.0,
            before.taken_at@.1,
            after.taken_at@.0,
            after.taken_at@.1,
        ) > 0 && !counters_fit(*before, *after)),
        r matches Some(outcome) ==> diff_outcome(
            outcome,
            *before,
            *after,
            crate::timestamp::chrono_elapsed_millis(
                before.taken_at@.0,
                before.taken_at@.1,
                after.taken_at@.0,
                after.taken_at@.1,
            ),
        ),
{
    let elapsed_millis: i64 = after.taken_at.millis_since(&before.taken_at);
    if before.database_name == after.database_name && elapsed_millis > 0 && !counters_in_range(
        before,
        after,
    ) {
        None
    } else {
        Some(compute(before, after))
    }
}

fn fits_exec(x: i128) -> (r: bool)
    ensures
        r == fits_i64(x as int),
{
    -9_223_372_036_854_775_808i128 <= x && x <= 9_223_372_036_854_775_807i128
}

fn counter_delta_wide(before: i64, after: i64) -> (r: i128)
    ensures
        r == counter_delta(before, after),
{
    if after < before {
        after as i128
    } else {
        after as i128 - before as i128
    }
}

fn difference_fits(before: i64, after: i64) -> (r: bool)
    ensures
        r == fits_i64(after - before),
{
    fits_exec(after as i128 - before as i128)
}

fn database_counters_in_range(b: &DatabaseStat, a: &DatabaseStat) -> (r: bool)
    ensures
        r == database_counters_fit(*b, *a),
{
    let differences = difference_fits(b.xact_commit, a.xact_commit) && difference_fits(
        b.xact_rollback,
        a.xact_rollback,
    ) && difference_fits(b.blks_read, a.blks_read) && difference_fits(b.blks_hit, a.blks_hit)
        && difference_fits(b.tup_returned, a.tup_returned) && difference_fits(
        b.tup_fetched,
        a.tup_fetched,
    ) && difference_fits(b.tup_inserted, a.tup_inserted) && difference_fits(
        b.tup_updated,
        a.tup_updated,
    ) && difference_fits(b.tup_deleted, a.tup_deleted) && difference_fits(
        b.temp_files,
        a.temp_files,
    ) && difference_fits(b.temp_bytes, a.temp_bytes) && difference_fits(b.deadlocks, a.deadlocks);
    if !differences {
        return false;
    }
    let hit = counter_delta_wide(b.blks_hit, a.blks_hit);
    let read = counter_delta_wide(b.blks_read, a.blks_read);
    let returned = counter_delta_wide(b.tup_returned, a.tup_returned);
    let fetched = counter_delta_wide(b.tup_fetched, a.tup_fetched);
    let ins = counter_delta_wide(b.tup_inserted, a.tup_inserted);
    let upd = counter_delta_wide(b.tup_updated, a.tup_updated);
    let del = counter_delta_wide(b.tup_deleted, a.tup_deleted);
    fits_exec(hit + read) && fits_exec(returned + fetched) && fits_exec(ins + upd) && fits_exec(
        ins + upd + del,
    )
}

fn table_counters_in_range(b: &TableStat, a: &TableStat) -> (r: bool)
    ensures
        r == table_counters_fit(*b, *a),
{
    let differences = difference_fits(b.seq_scan, a.seq_scan) && difference_fits(
        b.idx_scan,
        a.idx_scan,
    ) && difference_fits(b.n_tup_ins, a.n_tup_ins) && difference_fits(b.n_tup_upd, a.n_tup_upd)
        && difference_fits(b.n_tup_del, a.n_tup_del) && difference_fits(b.n_live_tup, a.n_live_tup)
        && difference_fits(b.n_dead_tup, a.n_dead_tup);
    if !differences {
        return false;
    }
    let ins = counter_delta_wide(b.n_tup_ins, a.n_tup_ins);
    let upd = counter_delta_wide(b.n_tup_upd, a.n_tup_upd);
    let del = counter_delta_wide(b.n_tup_del, a.n_tup_del);
    fits_exec(ins + upd) && fits_exec(ins + upd + del)
}

fn tables_in_range(before: &Vec<TableStat>, after: &Vec<TableStat>) -> (r: bool)
    ensures
        r == tables_fit(before@, after@),
{
    let mut i: usize = 0;
    while i < after.len()
        invariant
            i <= after@.len(),
            forall|k: int|
                0 <= k < i ==> match #[trigger] last_with_key(before@, after@[k]) {
                    Some(b) => table_counters_fit(b, after@[k]),
                    None => true,
                },
        decreases after@.len() - i,
    {
        match find_last(before, &after[i]) {
            Some(j) => {
                if !table_counters_in_range(&before[j], &after[i]) {
                    assert(last_with_key(before@, after@[i as int]) == Some(before@[j as int]));
                    return false;
                }
            },
            None => {},
        }
        i = i + 1;
    }
    true
}

/// Whether `compute` can diff the two snapshots without any subtraction or
/// sum leaving `i64`.
pub fn counters_in_range(before: &Snapshot, after: &Snapshot) -> (r: bool)
    ensures
        r == counters_fit(*before, *after),
{
    database_counters_in_range(&before.database, &after.database) && tables_in_range(
        &before.tables,
        &after.tables,
    )
}

// ----- Laws of the report -----

/// Every cumulative counter of the snapshot is non-negative, as Postgres's
/// are.
pub open spec fn counters_non_negative(s: Snapshot) -> bool {
    let d = s.database;
    &&& d.xact_commit >= 0 && d.xact_rollback >= 0 && d.blks_read >= 0 && d.blks_hit >= 0
    &&& d.tup_returned >= 0 && d.tup_fetched >= 0 && d.tup_inserted >= 0 && d.tup_updated >= 0
    &&& d.tup_deleted >= 0 && d.temp_files >= 0 && d.temp_bytes >= 0 && d.deadlocks >= 0
    &&& forall|i: int|
        0 <= i < s.tables@.len() ==> {
            let t = #[trigger] s.tables@[i];
            t.seq_scan >= 0 && t.idx_scan >= 0 && t.n_tup_ins >= 0 && t.n_tup_upd >= 0
                && t.n_tup_del >= 0
        }
}

/// `x` is the delta, showing some activity, of an "after" row that has a
/// "before" row with its key.
pub open spec fn delta_of_matched_row(x: TableDelta, before: Seq<TableStat>, after: Seq<TableStat>) -> bool {
    &&& !is_idle(x)
    &&& exists|j: int|
        0 <= j < after.len() && #[trigger] last_with_key(before, after[j]) is Some && x
            == table_delta(last_with_key(before, after[j])->Some_0, after[j])
}

proof fn lemma_last_with_key_found(tables: Seq<TableStat>, t: TableStat)
    ensures
        last_with_key(tables, t) matches Some(b) ==> tables.contains(b) && same_key(b, t),
    decreases tables.len(),
{
    if tables.len() > 0 && !same_key(tables.last(), t) {
        lemma_last_with_key_found(tables.drop_last(), t);
        if let Some(b) = last_with_key(tables, t) {
            let k = choose|k: int| 0 <= k < tables.drop_last().len() && tables.drop_last()[k] == b;
            assert(tables[k] == b);
        }
    } else if tables.len() > 0 {
        assert(tables[tables.len() - 1] == tables.last());
    }
}

proof fn lemma_with_writes_within(s: Seq<TableDelta>, w: int, x: TableDelta)
    requires
        with_writes(s, w).contains(x),
    ensures
        s.contains(x),
    decreases s.len(),
{
    reveal(Seq::filter);
    if s.len() > 0 {
        let rest = s.drop_last().filter(has_writes(w));
        if has_writes(w)(s.last()) && x == s.last() {
            assert(s[s.len() - 1] == x);
        } else {
            if has_writes(w)(s.last()) {
                let k = choose|k: int| 0 <= k < rest.push(s.last()).len() && rest.push(s.last())[k] == x;
                assert(rest[k] == x);
            }
            lemma_with_writes_within(s.drop_last(), w, x);
            let k = choose|k: int| 0 <= k < s.drop_last().len() && s.drop_last()[k] == x;
            assert(s[k] == x);
        }
    }
}

proof fn lemma_stable_order_keeps_elements(r: Seq<TableDelta>, m: Seq<TableDelta>, i: int)
    requires
        stably_busiest_first(r, m),
        0 <= i < r.len(),
    ensures
        m.contains(r[i]),
{
    let w = writes_of(r[i]);
    r.lemma_filter_contains(has_writes(w), i);
    assert(with_writes(r, w) == with_writes(m, w));
    lemma_with_writes_within(m, w, r[i]);
}

proof fn lemma_matched_rows(before: Seq<TableStat>, after: Seq<TableStat>, x: TableDelta)
    requires
        matched_deltas(before, after).contains(x),
    ensures
        delta_of_matched_row(x, before, after),
    decreases after.len(),
{
    let rest = matched_deltas(before, after.drop_last());
    let j = after.len() - 1;
    assert(after.last() == after[j]);
    let found = last_with_key(before, after.last());
    if found is Some && !is_idle(table_delta(found->Some_0, after.last())) && x == table_delta(
        found->Some_0,
        after.last(),
    ) {
        assert(last_with_key(before, after[j]) is Some);
    } else {
        if found is Some && !is_idle(table_delta(found->Some_0, after.last())) {
            let d = table_delta(found->Some_0, after.last());
            let k = choose|k: int| 0 <= k < rest.push(d).len() && rest.push(d)[k] == x;
            assert(rest[k] == x);
        }
        lemma_matched_rows(before, after.drop_last(), x);
        let k = choose|k: int|
            0 <= k < after.drop_last().len() && #[trigger] last_with_key(
                before,
                after.drop_last()[k],
            ) is Some && x == table_delta(
                last_with_key(before, after.drop_last()[k])->Some_0,
                after.drop_last()[k],
            );
        assert(after[k] == after.drop_last()[k]);
        assert(last_with_key(before, after[k]) is Some);
    }
}

proof fn lemma_matched_contains(before: Seq<TableStat>, after: Seq<TableStat>, j: int)
    requires
        0 <= j < after.len(),
        last_with_key(before, after[j]) is Some,
        !is_idle(table_delta(last_with_key(before, after[j])->Some_0, after[j])),
    ensures
        matched_deltas(before, after).contains(
            table_delta(last_with_key(before, after[j])->Some_0, after[j]),
        ),
    decreases after.len(),
{
    let d = table_delta(last_with_key(before, after[j])->Some_0, after[j]);
    let rest = matched_deltas(before, after.drop_last());
    if j == after.len() - 1 {
        assert(after.last() == after[j]);
        assert(rest.push(d)[rest.len() as int] == d);
    } else {
        assert(after.drop_last()[j] == after[j]);
        lemma_matched_contains(before, after.drop_last(), j);
        let k = choose|k: int| 0 <= k < rest.len() && rest[k] == d;
        let found = last_with_key(before, after.last());
        if found is Some && !is_idle(table_delta(found->Some_0, after.last())) {
            assert(rest.push(table_delta(found->Some_0, after.last()))[k] == d);
        }
    }
}

/// Every table present in both snapshots that saw any activity during the
/// interval is in the report, with its delta (against the last "before" row
/// with its key).
pub proof fn lemma_active_tables_are_reported(
    rep: DeltaReport,
    before: Snapshot,
    after: Snapshot,
    elapsed: i64,
    j: int,
)
    requires
        describes_interval(rep, before, after, elapsed),
        0 <= j < after.tables@.len(),
        last_with_key(before.tables@, after.tables@[j]) is Some,
        !is_idle(
            table_delta(last_with_key(before.tables@, after.tables@[j])->Some_0, after.tables@[j]),
        ),
    ensures
        rep.tables@.contains(
            table_delta(last_with_key(before.tables@, after.tables@[j])->Some_0, after.tables@[j]),
        ),
{
    let m = matched_deltas(before.tables@, after.tables@);
    let d = table_delta(last_with_key(before.tables@, after.tables@[j])->Some_0, after.tables@[j]);
    lemma_matched_contains(before.tables@, after.tables@, j);
    let k = choose|k: int| 0 <= k < m.len() && m[k] == d;
    let w = writes_of(d);
    m.lemma_filter_contains(has_writes(w), k);
    assert(with_writes(rep.tables@, w) == with_writes(m, w));
    lemma_with_writes_within(rep.tables@, w, d);
}

/// Every table in the report is present in both snapshots and saw some
/// activity: the report holds the non-zero delta of an "after" row whose key
/// has a "before" row, so a table created or dropped during the interval, or
/// one with no activity, never appears in it.
pub proof fn lemma_reported_tables_exist_in_both(
    rep: DeltaReport,
    before: Snapshot,
    after: Snapshot,
    elapsed: i64,
    i: int,
)
    requires
        describes_interval(rep, before, after, elapsed),
        0 <= i < rep.tables@.len(),
    ensures
        !is_idle(rep.tables@[i]),
        exists|j: int, k: int|
            0 <= j < after.tables@.len() && 0 <= k < before.tables@.len()
                && #[trigger] after.tables@[j].schema@ == rep.tables@[i].schema@
                && after.tables@[j].table@ == rep.tables@[i].table@ && #[trigger] same_key(
                before.tables@[k],
                after.tables@[j],
            ),
{
    let m = matched_deltas(before.tables@, after.tables@);
    lemma_stable_order_keeps_elements(rep.tables@, m, i);
    lemma_matched_rows(before.tables@, after.tables@, rep.tables@[i]);
    let j = choose|j: int|
        0 <= j < after.tables@.len() && #[trigger] last_with_key(
            before.tables@,
            after.tables@[j],
        ) is Some && rep.tables@[i] == table_delta(
            last_with_key(before.tables@, after.tables@[j])->Some_0,
            after.tables@[j],
        );
    let b = last_with_key(before.tables@, after.tables@[j])->Some_0;
    lemma_last_with_key_found(before.tables@, after.tables@[j]);
    let k = choose|k: int| 0 <= k < before.tables@.len() && before.tables@[k] == b;
    assert(same_key(before.tables@[k], after.tables@[j]));
}

/// With non-negative counters in the "after" snapshot no delta is ever
/// negative (a reset reports the post-reset value), and the interval's cache
/// hits never exceed its block accesses.
pub proof fn lemma_deltas_never_negative(
    rep: DeltaReport,
    before: Snapshot,
    after: Snapshot,
    elapsed: i64,
)
    requires
        describes_interval(rep, before, after, elapsed),
        counters_fit(before, after),
        counters_non_negative(after),
    ensures
        rep.commits >= 0,
        rep.rollbacks >= 0,
        rep.rows_read >= 0,
        rep.rows_written >= 0,
        rep.temp_files >= 0,
        rep.temp_bytes >= 0,
        rep.deadlocks >= 0,
        rep.cache_hit_ratio matches Some(ratio) ==> 0 <= ratio.0 <= ratio.1 && ratio.1 > 0,
        forall|i: int|
            0 <= i < rep.tables@.len() ==> {
                let t = #[trigger] rep.tables@[i];
                t.seq_scan >= 0 && t.idx_scan >= 0 && t.n_tup_ins >= 0 && t.n_tup_upd >= 0
                    && t.n_tup_del >= 0
            },
{
    let m = matched_deltas(before.tables@, after.tables@);
    assert forall|i: int| 0 <= i < rep.tables@.len() implies {
        let t = #[trigger] rep.tables@[i];
        t.seq_scan >= 0 && t.idx_scan >= 0 && t.n_tup_ins >= 0 && t.n_tup_upd >= 0
            && t.n_tup_del >= 0
    } by {
        lemma_stable_order_keeps_elements(rep.tables@, m, i);
        lemma_matched_rows(before.tables@, after.tables@, rep.tables@[i]);
        let j = choose|j: int|
            0 <= j < after.tables@.len() && #[trigger] last_with_key(
                before.tables@,
                after.tables@[j],
            ) is Some && rep.tables@[i] == table_delta(
                last_with_key(before.tables@, after.tables@[j])->Some_0,
                after.tables@[j],
            );
        let a = after.tables@[j];
        assert(table_counters_fit(last_with_key(before.tables@, a)->Some_0, a));
        assert(a.seq_scan >= 0 && a.idx_scan >= 0 && a.n_tup_ins >= 0 && a.n_tup_upd >= 0
            && a.n_tup_del >= 0);
    }
}

/// Counters that never went down, with an unchanged reset time, give plain
/// differences and no reset.
pub proof fn lemma_steady_counters_give_differences(
    rep: DeltaReport,
    before: Snapshot,
    after: Snapshot,
    elapsed: i64,
)
    requires
        describes_interval(rep, before, after, elapsed),
        before.database.stats_reset == after.database.stats_reset,
        !database_dropped(before.database, after.database),
        !any_table_dropped(before.tables@, after.tables@),
    ensures
        !rep.reset_detected,
        rep.commits == after.database.xact_commit - before.database.xact_commit,
        rep.rollbacks == after.database.xact_rollback - before.database.xact_rollback,
        rep.rows_read == (after.database.tup_returned - before.database.tup_returned) + (
        after.database.tup_fetched - before.database.tup_fetched),
        rep.rows_written == (after.database.tup_inserted - before.database.tup_inserted) + (
        after.database.tup_updated - before.database.tup_updated) + (after.database.tup_deleted
            - before.database.tup_deleted),
        rep.temp_files == after.database.temp_files - before.database.temp_files,
        rep.temp_bytes == after.database.temp_bytes - before.database.temp_bytes,
        rep.deadlocks == after.database.deadlocks - before.database.deadlocks,
{
}

/// Snapshots of one database whose instants (outside leap seconds) are less
/// than a millisecond apart in the forward direction, or not in it at all,
/// are refused as a non-positive interval when the interval is measured as
/// chrono does.
pub proof fn lemma_not_later_is_refused(
    r: Result<DeltaReport, DiffError>,
    before: Snapshot,
    after: Snapshot,
    elapsed: i64,
)
    requires
        before.database_name@ == after.database_name@,
        crate::timestamp::outside_leap_second(before.taken_at@),
        crate::timestamp::outside_leap_second(after.taken_at@),
        crate::timestamp::epoch_nanos(after.taken_at@.0, after.taken_at@.1) < crate::timestamp::epoch_nanos(
            before.taken_at@.0,
            before.taken_at@.1,
        ) + 1_000_000,
        elapsed == crate::timestamp::trunc_div(
            crate::timestamp::epoch_nanos(after.taken_at@.0, after.taken_at@.1) - crate::timestamp::epoch_nanos(
                before.taken_at@.0,
                before.taken_at@.1,
            ),
            1_000_000,
        ),
        diff_outcome(r, before, after, elapsed),
    ensures
        r == Err::<DeltaReport, DiffError>(
            DiffError::NonPositiveElapsed { before: before.taken_at, after: after.taken_at },
        ),
{
}

// ----- Laws stated over the rows themselves -----

proof fn lemma_any_table_dropped_witness(before: Seq<TableStat>, after: Seq<TableStat>)
    ensures
        any_table_dropped(before, after) <==> exists|j: int|
            0 <= j < after.len() && #[trigger] last_with_key(before, after[j]) is Some
                && table_dropped(last_with_key(before, after[j])->Some_0, after[j]),
    decreases after.len(),
{
    if after.len() > 0 {
        let rest = after.drop_last();
        lemma_any_table_dropped_witness(before, rest);
        let n = after.len() - 1;
        assert(after.last() == after[n]);
        if any_table_dropped(before, after) {
            if any_table_dropped(before, rest) {
                let j = choose|j: int|
                    0 <= j < rest.len() && #[trigger] last_with_key(before, rest[j]) is Some
                        && table_dropped(last_with_key(before, rest[j])->Some_0, rest[j]);
                assert(after[j] == rest[j]);
                assert(last_with_key(before, after[j]) is Some);
            } else {
                assert(last_with_key(before, after[n]) is Some);
            }
        }
        if exists|j: int|
            0 <= j < after.len() && #[trigger] last_with_key(before, after[j]) is Some
                && table_dropped(last_with_key(before, after[j])->Some_0, after[j]) {
            let j = choose|j: int|
                0 <= j < after.len() && #[trigger] last_with_key(before, after[j]) is Some
                    && table_dropped(last_with_key(before, after[j])->Some_0, after[j]);
            if j < n {
                assert(rest[j] == after[j]);
                assert(last_with_key(before, rest[j]) is Some);
            }
        }
    }
}

/// Each counter of a reported table is the difference between its "after"
/// row and the (last) "before" row with the same schema and name, or the
/// "after" value itself where the counter went down; the live and dead
/// tuple counts are plain signed differences.
pub proof fn lemma_table_deltas_are_row_differences(
    rep: DeltaReport,
    before: Snapshot,
    after: Snapshot,
    elapsed: i64,
    i: int,
)
    requires
        describes_interval(rep, before, after, elapsed),
        counters_fit(before, after),
        0 <= i < rep.tables@.len(),
    ensures
        exists|j: int|
            0 <= j < after.tables@.len() && #[trigger] last_with_key(
                before.tables@,
                after.tables@[j],
            ) is Some && {
                let a = after.tables@[j];
                let b = last_with_key(before.tables@, a)->Some_0;
                let t = rep.tables@[i];
                &&& t.schema@ == a.schema@ && t.table@ == a.table@
                &&& b.schema@ == a.schema@ && b.table@ == a.table@
                &&& (a.seq_scan >= b.seq_scan ==> t.seq_scan == a.seq_scan - b.seq_scan)
                &&& (a.seq_scan < b.seq_scan ==> t.seq_scan == a.seq_scan)
                &&& (a.idx_scan >= b.idx_scan ==> t.idx_scan == a.idx_scan - b.idx_scan)
                &&& (a.idx_scan < b.idx_scan ==> t.idx_scan == a.idx_scan)
                &&& (a.n_tup_ins >= b.n_tup_ins ==> t.n_tup_ins == a.n_tup_ins - b.n_tup_ins)
                &&& (a.n_tup_ins < b.n_tup_ins ==> t.n_tup_ins == a.n_tup_ins)
                &&& (a.n_tup_upd >= b.n_tup_upd ==> t.n_tup_upd == a.n_tup_upd - b.n_tup_upd)
                &&& (a.n_tup_upd < b.n_tup_upd ==> t.n_tup_upd == a.n_tup_upd)
                &&& (a.n_tup_del >= b.n_tup_del ==> t.n_tup_del == a.n_tup_del - b.n_tup_del)
                &&& (a.n_tup_del < b.n_tup_del ==> t.n_tup_del == a.n_tup_del)
                &&& t.live_tup_delta == a.n_live_tup - b.n_live_tup
                &&& t.dead_tup_delta == a.n_dead_tup - b.n_dead_tup
            },
{
    let m = matched_deltas(before.tables@, after.tables@);
    lemma_stable_order_keeps_elements(rep.tables@, m, i);
    lemma_matched_rows(before.tables@, after.tables@, rep.tables@[i]);
    let j = choose|j: int|
        0 <= j < after.tables@.len() && #[trigger] last_with_key(
            before.tables@,
            after.tables@[j],
        ) is Some && rep.tables@[i] == table_delta(
            last_with_key(before.tables@, after.tables@[j])->Some_0,
            after.tables@[j],
        );
    let a = after.tables@[j];
    lemma_last_with_key_found(before.tables@, a);
    assert(table_counters_fit(last_with_key(before.tables@, a)->Some_0, a));
}

/// Every cumulative counter of both snapshots lies in `0..bound`.
pub open spec fn counters_within(s: Snapshot, bound: int) -> bool {
    let d = s.database;
    &&& 0 <= d.xact_commit < bound && 0 <= d.xact_rollback < bound
    &&& 0 <= d.blks_read < bound && 0 <= d.blks_hit < bound
    &&& 0 <= d.tup_returned < bound && 0 <= d.tup_fetched < bound
    &&& 0 <= d.tup_inserted < bound && 0 <= d.tup_updated < bound
    &&& 0 <= d.tup_deleted < bound && 0 <= d.temp_files < bound
    &&& 0 <= d.temp_bytes < bound && 0 <= d.deadlocks < bound
    &&& forall|i: int|
        0 <= i < s.tables@.len() ==> {
            let t = #[trigger] s.tables@[i];
            &&& 0 <= t.seq_scan < bound && 0 <= t.idx_scan < bound
            &&& 0 <= t.n_tup_ins < bound && 0 <= t.n_tup_upd < bound
            &&& 0 <= t.n_tup_del < bound
            &&& 0 <= t.n_live_tup < bound && 0 <= t.n_dead_tup < bound
        }
}

/// Snapshots whose counters all lie in `0..2^60` never overflow: the whole
/// report can be computed, whatever went up or down (so `compute_checked`
/// gives a result for them).
pub proof fn lemma_bounded_counters_fit(before: Snapshot, after: Snapshot)
    requires
        counters_within(before, 0x1000_0000_0000_0000),
        counters_within(after, 0x1000_0000_0000_0000),
    ensures
        counters_fit(before, after),
{
    assert forall|i: int| 0 <= i < after.tables@.len() implies match #[trigger] last_with_key(
        before.tables@,
        after.tables@[i],
    ) {
        Some(b) => table_counters_fit(b, after.tables@[i]),
        None => true,
    } by {
        let a = after.tables@[i];
        lemma_last_with_key_found(before.tables@, a);
        if let Some(b) = last_with_key(before.tables@, a) {
            let k = choose|k: int| 0 <= k < before.tables@.len() && before.tables@[k] == b;
            assert(before.tables@[k] == b);
        }
    }
}

/// A database counter that went down reports its "after" value and marks a
/// reset; one that did not reports the difference.
pub proof fn lemma_database_counters_are_differences(
    rep: DeltaReport,
    before: Snapshot,
    after: Snapshot,
    elapsed: i64,
)
    requires
        describes_interval(rep, before, after, elapsed),
    ensures
        ({
            let b = before.database;
            let a = after.database;
            &&& (a.xact_commit >= b.xact_commit ==> rep.commits == a.xact_commit - b.xact_commit)
            &&& (a.xact_commit < b.xact_commit ==> rep.commits == a.xact_commit && rep.reset_detected)
            &&& (a.xact_rollback >= b.xact_rollback ==> rep.rollbacks == a.xact_rollback
                - b.xact_rollback)
            &&& (a.xact_rollback < b.xact_rollback ==> rep.rollbacks == a.xact_rollback
                && rep.reset_detected)
            &&& (a.temp_files >= b.temp_files ==> rep.temp_files == a.temp_files - b.temp_files)
            &&& (a.temp_files < b.temp_files ==> rep.temp_files == a.temp_files
                && rep.reset_detected)
            &&& (a.temp_bytes >= b.temp_bytes ==> rep.temp_bytes == a.temp_bytes - b.temp_bytes)
            &&& (a.temp_bytes < b.temp_bytes ==> rep.temp_bytes == a.temp_bytes
                && rep.reset_detected)
            &&& (a.deadlocks >= b.deadlocks ==> rep.deadlocks == a.deadlocks - b.deadlocks)
            &&& (a.deadlocks < b.deadlocks ==> rep.deadlocks == a.deadlocks && rep.reset_detected)
            &&& (a.tup_returned >= b.tup_returned && a.tup_fetched >= b.tup_fetched
                ==> rep.rows_read == (a.tup_returned - b.tup_returned) + (a.tup_fetched
                - b.tup_fetched))
            &&& (a.tup_inserted >= b.tup_inserted && a.tup_updated >= b.tup_updated
                && a.tup_deleted >= b.tup_deleted ==> rep.rows_written == (a.tup_inserted
                - b.tup_inserted) + (a.tup_updated - b.tup_updated) + (a.tup_deleted
                - b.tup_deleted))
            &&& rep.numbackends_before == b.numbackends
            &&& rep.numbackends_after == a.numbackends
        }),
{
}

/// A reset is reported exactly when the reset time changed to a present
/// one, some cumulative counter of the database went down, or some counter
/// of a table present in both snapshots went down.
pub proof fn lemma_reset_detected_exactly_on_drops(
    rep: DeltaReport,
    before: Snapshot,
    after: Snapshot,
    elapsed: i64,
)
    requires
        describes_interval(rep, before, after, elapsed),
    ensures
        rep.reset_detected <==> ({
            let b = before.database;
            let a = after.database;
            ||| (b.stats_reset != a.stats_reset && a.stats_reset is Some)
            ||| a.xact_commit < b.xact_commit
            ||| a.xact_rollback < b.xact_rollback
            ||| a.blks_read < b.blks_read
            ||| a.blks_hit < b.blks_hit
            ||| a.tup_returned < b.tup_returned
            ||| a.tup_fetched < b.tup_fetched
            ||| a.tup_inserted < b.tup_inserted
            ||| a.tup_updated < b.tup_updated
            ||| a.tup_deleted < b.tup_deleted
            ||| a.temp_files < b.temp_files
            ||| a.temp_bytes < b.temp_bytes
            ||| a.deadlocks < b.deadlocks
            ||| exists|j: int|
                0 <= j < after.tables@.len() && #[trigger] last_with_key(
                    before.tables@,
                    after.tables@[j],
                ) is Some && {
                    let ta = after.tables@[j];
                    let tb = last_with_key(before.tables@, ta)->Some_0;
                    ||| ta.seq_scan < tb.seq_scan
                    ||| ta.idx_scan < tb.idx_scan
                    ||| ta.n_tup_ins < tb.n_tup_ins
                    ||| ta.n_tup_upd < tb.n_tup_upd
                    ||| ta.n_tup_del < tb.n_tup_del
                }
        }),
{
    lemma_any_table_dropped_witness(before.tables@, after.tables@);
}

/// The cache hit ratio is present exactly when the interval touched some
/// block, and is then (blocks hit, blocks hit + blocks read) over the
/// interval; hits with no reads give a ratio of one.
pub proof fn lemma_cache_hit_ratio_of_interval(
    rep: DeltaReport,
    before: Snapshot,
    after: Snapshot,
    elapsed: i64,
)
    requires
        describes_interval(rep, before, after, elapsed),
        counters_fit(before, after),
    ensures
        ({
            let b = before.database;
            let a = after.database;
            let hit: int = if a.blks_hit < b.blks_hit {
                a.blks_hit as int
            } else {
                a.blks_hit - b.blks_hit
            };
            let read: int = if a.blks_read < b.blks_read {
                a.blks_read as int
            } else {
                a.blks_read - b.blks_read
            };
            &&& hit + read > 0 ==> (rep.cache_hit_ratio matches Some(ratio) && ratio.0 == hit
                && ratio.1 == hit + read)
            &&& hit + read <= 0 ==> rep.cache_hit_ratio is None
            &&& (hit > 0 && read == 0) ==> (rep.cache_hit_ratio matches Some(ratio) && ratio.0
                == ratio.1)
        }),
{
}

/// Reported tables come busiest first: rows inserted, updated and deleted
/// never increase along the list.
pub proof fn lemma_tables_come_busiest_first(
    rep: DeltaReport,
    before: Snapshot,
    after: Snapshot,
    elapsed: i64,
)
    requires
        describes_interval(rep, before, after, elapsed),
    ensures
        forall|i: int, j: int|
            0 <= i < j < rep.tables@.len() ==> #[trigger] rep.tables@[i].n_tup_ins
                + rep.tables@[i].n_tup_upd + rep.tables@[i].n_tup_del >= #[trigger] rep.tables@[j].n_tup_ins
                + rep.tables@[j].n_tup_upd + rep.tables@[j].n_tup_del,
{
}

proof fn lemma_filter_keeps_order(s: Seq<TableDelta>, pred: spec_fn(TableDelta) -> bool, i: int, j: int)
    requires
        0 <= i < j < s.len(),
        pred(s[i]),
        pred(s[j]),
    ensures
        exists|a: int, b: int|
            0 <= a < b < s.filter(pred).len() && s.filter(pred)[a] == s[i] && s.filter(pred)[b]
                == s[j],
    decreases s.len(),
{
    reveal(Seq::filter);
    let rest = s.drop_last();
    let fr = rest.filter(pred);
    assert(s.filter(pred) == if pred(s.last()) {
        fr.push(s.last())
    } else {
        fr
    });
    if j == s.len() - 1 {
        assert(rest[i] == s[i]);
        rest.lemma_filter_contains(pred, i);
        let a = choose|a: int| 0 <= a < fr.len() && fr[a] == s[i];
        assert(fr.push(s.last())[a] == s[i]);
        assert(fr.push(s.last())[fr.len() as int] == s[j]);
    } else {
        assert(rest[i] == s[i] && rest[j] == s[j]);
        lemma_filter_keeps_order(rest, pred, i, j);
        let (a, b) = choose|a: int, b: int|
            0 <= a < b < fr.len() && fr[a] == s[i] && fr[b] == s[j];
        if pred(s.last()) {
            assert(fr.push(s.last())[a] == s[i] && fr.push(s.last())[b] == s[j]);
        }
    }
}

proof fn lemma_filter_within(s: Seq<TableDelta>, pred: spec_fn(TableDelta) -> bool, a: int)
    requires
        0 <= a < s.filter(pred).len(),
    ensures
        exists|i: int| 0 <= i < s.len() && s[i] == s.filter(pred)[a],
    decreases s.len(),
{
    reveal(Seq::filter);
    let rest = s.drop_last();
    let fr = rest.filter(pred);
    if pred(s.last()) && a == fr.len() {
        assert(s[s.len() - 1] == s.filter(pred)[a]);
    } else {
        if pred(s.last()) {
            assert(fr.push(s.last())[a] == fr[a]);
        }
        lemma_filter_within(rest, pred, a);
        let i = choose|i: int| 0 <= i < rest.len() && rest[i] == fr[a];
        assert(s[i] == rest[i]);
    }
}

proof fn lemma_filter_order_back(s: Seq<TableDelta>, pred: spec_fn(TableDelta) -> bool, a: int, b: int)
    requires
        0 <= a < b < s.filter(pred).len(),
    ensures
        exists|i: int, j: int|
            0 <= i < j < s.len() && s[i] == s.filter(pred)[a] && s[j] == s.filter(pred)[b],
    decreases s.len(),
{
    reveal(Seq::filter);
    let rest = s.drop_last();
    let fr = rest.filter(pred);
    if pred(s.last()) && b == fr.len() {
        assert(fr.push(s.last())[a] == fr[a]);
        lemma_filter_within(rest, pred, a);
        let i = choose|i: int| 0 <= i < rest.len() && rest[i] == fr[a];
        assert(s[i] == rest[i]);
        assert(s[s.len() - 1] == s.filter(pred)[b]);
    } else {
        if pred(s.last()) {
            assert(fr.push(s.last())[a] == fr[a] && fr.push(s.last())[b] == fr[b]);
        }
        lemma_filter_order_back(rest, pred, a, b);
        let (i, j) = choose|i: int, j: int|
            0 <= i < j < rest.len() && rest[i] == fr[a] && rest[j] == fr[b];
        assert(s[i] == rest[i] && s[j] == rest[j]);
    }
}

proof fn lemma_matched_order(before: Seq<TableStat>, after: Seq<TableStat>, p: int, q: int)
    requires
        0 <= p < q < matched_deltas(before, after).len(),
    ensures
        exists|j1: int, j2: int|
            0 <= j1 < j2 < after.len() && matched_deltas(before, after)[p].schema@
                == after[j1].schema@ && matched_deltas(before, after)[p].table@ == after[j1].table@
                && matched_deltas(before, after)[q].schema@ == after[j2].schema@ && matched_deltas(
                before,
                after,
            )[q].table@ == after[j2].table@,
    decreases after.len(),
{
    let m = matched_deltas(before, after);
    let rest = matched_deltas(before, after.drop_last());
    let n = after.len() - 1;
    assert(after.last() == after[n]);
    if q == rest.len() {
        assert(m == rest.push(m[q]));
        assert(m[p] == rest[p]);
        assert(rest.contains(m[p]));
        lemma_matched_rows(before, after.drop_last(), m[p]);
        let j1 = choose|j1: int|
            0 <= j1 < after.drop_last().len() && #[trigger] last_with_key(
                before,
                after.drop_last()[j1],
            ) is Some && m[p] == table_delta(
                last_with_key(before, after.drop_last()[j1])->Some_0,
                after.drop_last()[j1],
            );
        assert(after[j1] == after.drop_last()[j1]);
    } else {
        assert(m[p] == rest[p] && m[q] == rest[q]);
        lemma_matched_order(before, after.drop_last(), p, q);
        let (j1, j2) = choose|j1: int, j2: int|
            0 <= j1 < j2 < after.drop_last().len() && rest[p].schema@
                == after.drop_last()[j1].schema@ && rest[p].table@ == after.drop_last()[j1].table@
                && rest[q].schema@ == after.drop_last()[j2].schema@ && rest[q].table@
                == after.drop_last()[j2].table@;
        assert(after[j1] == after.drop_last()[j1] && after[j2] == after.drop_last()[j2]);
    }
}

/// Tables that wrote the same number of rows keep the order of the
/// "after" snapshot: the earlier of two such reported tables is named by an
/// earlier "after" row than the later one.
pub proof fn lemma_ties_keep_after_order(
    rep: DeltaReport,
    before: Snapshot,
    after: Snapshot,
    elapsed: i64,
    i: int,
    j: int,
)
    requires
        describes_interval(rep, before, after, elapsed),
        0 <= i < j < rep.tables@.len(),
        rep.tables@[i].n_tup_ins + rep.tables@[i].n_tup_upd + rep.tables@[i].n_tup_del
            == rep.tables@[j].n_tup_ins + rep.tables@[j].n_tup_upd + rep.tables@[j].n_tup_del,
    ensures
        exists|j1: int, j2: int|
            0 <= j1 < j2 < after.tables@.len() && rep.tables@[i].schema@
                == after.tables@[j1].schema@ && rep.tables@[i].table@ == after.tables@[j1].table@
                && rep.tables@[j].schema@ == after.tables@[j2].schema@ && rep.tables@[j].table@
                == after.tables@[j2].table@,
{
    let r = rep.tables@;
    let m = matched_deltas(before.tables@, after.tables@);
    let w = writes_of(r[i]);
    lemma_filter_keeps_order(r, has_writes(w), i, j);
    let (a, b) = choose|a: int, b: int|
        0 <= a < b < r.filter(has_writes(w)).len() && r.filter(has_writes(w))[a] == r[i]
            && r.filter(has_writes(w))[b] == r[j];
    assert(with_writes(r, w) == with_writes(m, w));
    lemma_filter_order_back(m, has_writes(w), a, b);
    let (p, q) = choose|p: int, q: int|
        0 <= p < q < m.len() && m[p] == m.filter(has_writes(w))[a] && m[q] == m.filter(
            has_writes(w),
        )[b];
    lemma_matched_order(before.tables@, after.tables@, p, q);
}

} // verus!
