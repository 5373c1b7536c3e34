use chrono::{DateTime, Duration, Utc};
use pgstatdiff::diff::{
    compute, compute_checked, compute_with_elapsed, counters_in_range, non_negative_delta, DiffError,
    TableDelta,
};
use pgstatdiff::model::{DatabaseStat, Snapshot, TableStat};
use pgstatdiff::timestamp::Timestamp;

fn instant(at: DateTime<Utc>) -> Timestamp {
    Timestamp::from_unix(at.timestamp(), at.timestamp_subsec_nanos()).unwrap()
}

fn dbstat(commit: i64, blks_read: i64, blks_hit: i64) -> DatabaseStat {
    DatabaseStat {
        numbackends: 3,
        xact_commit: commit,
        xact_rollback: 0,
        blks_read,
        blks_hit,
        tup_returned: 0,
        tup_fetched: 0,
        tup_inserted: 0,
        tup_updated: 0,
        tup_deleted: 0,
        temp_files: 0,
        temp_bytes: 0,
        deadlocks: 0,
        stats_reset: Some(instant(DateTime::UNIX_EPOCH)),
    }
}

fn snap(at: DateTime<Utc>, db: DatabaseStat, tables: Vec<TableStat>) -> Snapshot {
    Snapshot {
        taken_at: instant(at),
        database_name: "testdb".into(),
        database: db,
        tables,
    }
}

fn tstat(schema: &str, table: &str, ins: i64, upd: i64, del: i64) -> TableStat {
    TableStat {
        schema: schema.into(),
        table: table.into(),
        seq_scan: 0,
        idx_scan: 0,
        n_tup_ins: ins,
        n_tup_upd: upd,
        n_tup_del: del,
        n_live_tup: ins - del,
        n_dead_tup: upd + del,
    }
}

/// Per-second rate as the command-line report derives it.
fn per_sec(count: i64, elapsed_millis: i64) -> f64 {
    count as f64 / (elapsed_millis as f64 / 1000.0)
}

#[test]
fn basic_delta_and_rates() {
    let t0 = Utc::now();
    let t1 = t0 + Duration::seconds(10);
    let before = snap(t0, dbstat(100, 50, 950), vec![]);
    let after = snap(t1, dbstat(150, 60, 1000), vec![]);
    let report = compute(&before, &after).unwrap();
    assert_eq!(report.commits, 50);
    assert!((per_sec(report.commits, report.elapsed_millis) - 5.0).abs() < 1e-9);
    assert!(!report.reset_detected);
}

#[test]
fn cache_hit_ratio_is_computed_over_the_interval_not_lifetime() {
    let t0 = Utc::now();
    let t1 = t0 + Duration::seconds(1);
    // Lifetime hit ratio implied by absolute numbers would be huge
    // (999900/1000000), but during this interval every block read was a miss.
    let before = dbstat(0, 999_900, 100);
    let after = dbstat(0, 1_000_000, 100);
    let report = compute(&snap(t0, before, vec![]), &snap(t1, after, vec![])).unwrap();
    assert_eq!(report.cache_hit_ratio, Some((0, 100)));
    let (hit, total) = report.cache_hit_ratio.unwrap();
    assert_eq!(hit as f64 / total as f64, 0.0);
}

#[test]
fn cache_hit_ratio_none_when_no_block_activity() {
    let t0 = Utc::now();
    let t1 = t0 + Duration::seconds(1);
    let before = dbstat(0, 10, 10);
    let after = dbstat(0, 10, 10);
    let report = compute(&snap(t0, before, vec![]), &snap(t1, after, vec![])).unwrap();
    assert_eq!(report.cache_hit_ratio, None);
}

#[test]
fn different_database_names_rejected() {
    let t0 = Utc::now();
    let t1 = t0 + Duration::seconds(1);
    let mut before = snap(t0, dbstat(0, 0, 0), vec![]);
    before.database_name = "dbA".into();
    let mut after = snap(t1, dbstat(0, 0, 0), vec![]);
    after.database_name = "dbB".into();
    let err = compute(&before, &after).unwrap_err();
    assert!(matches!(err, DiffError::DifferentDatabase { .. }));
}

#[test]
fn non_positive_elapsed_rejected_when_after_is_earlier() {
    let t0 = Utc::now();
    let t1 = t0 - Duration::seconds(5);
    let before = snap(t0, dbstat(0, 0, 0), vec![]);
    let after = snap(t1, dbstat(0, 0, 0), vec![]);
    let err = compute(&before, &after).unwrap_err();
    assert!(matches!(err, DiffError::NonPositiveElapsed { .. }));
}

#[test]
fn non_positive_elapsed_rejected_when_equal() {
    let t0 = Utc::now();
    let before = snap(t0, dbstat(0, 0, 0), vec![]);
    let after = snap(t0, dbstat(5, 0, 0), vec![]);
    let err = compute(&before, &after).unwrap_err();
    assert!(matches!(err, DiffError::NonPositiveElapsed { .. }));
}

#[test]
fn counter_reset_detected_and_uses_post_reset_value() {
    let t0 = Utc::now();
    let t1 = t0 + Duration::seconds(10);
    let mut before = dbstat(500, 0, 0);
    before.stats_reset = Some(instant(DateTime::UNIX_EPOCH));
    let mut after = dbstat(20, 0, 0); // dropped: a reset happened
    after.stats_reset = Some(instant(DateTime::UNIX_EPOCH + Duration::seconds(5)));
    let report = compute(&snap(t0, before, vec![]), &snap(t1, after, vec![])).unwrap();
    assert!(report.reset_detected);
    assert_eq!(report.commits, 20); // the post-reset value, not -480
}

#[test]
fn table_deltas_computed_and_sorted_by_total_writes() {
    let t0 = Utc::now();
    let t1 = t0 + Duration::seconds(10);
    let before_tables = vec![
        tstat("public", "quiet", 10, 0, 0),
        tstat("public", "busy", 10, 0, 0),
    ];
    let after_tables = vec![
        tstat("public", "quiet", 11, 0, 0),   // +1 write
        tstat("public", "busy", 10, 500, 50), // +550 writes
    ];
    let before = snap(t0, dbstat(0, 0, 0), before_tables);
    let after = snap(t1, dbstat(0, 0, 0), after_tables);
    let report = compute(&before, &after).unwrap();
    assert_eq!(report.tables.len(), 2);
    assert_eq!(report.tables[0].table, "busy");
    assert_eq!(report.tables[0].total_writes(), 550);
    assert_eq!(report.tables[1].table, "quiet");
}

#[test]
fn table_created_mid_interval_is_skipped_not_fabricated() {
    let t0 = Utc::now();
    let t1 = t0 + Duration::seconds(10);
    let before = snap(t0, dbstat(0, 0, 0), vec![]);
    let after = snap(t1, dbstat(0, 0, 0), vec![tstat("public", "new_table", 100, 0, 0)]);
    let report = compute(&before, &after).unwrap();
    assert!(report.tables.is_empty());
}

#[test]
fn table_dropped_mid_interval_is_absent_from_report() {
    let t0 = Utc::now();
    let t1 = t0 + Duration::seconds(10);
    let before = snap(t0, dbstat(0, 0, 0), vec![tstat("public", "gone", 10, 0, 0)]);
    let after = snap(t1, dbstat(0, 0, 0), vec![]);
    let report = compute(&before, &after).unwrap();
    assert!(report.tables.is_empty());
}

#[test]
fn rows_read_and_written_combine_the_right_columns() {
    let t0 = Utc::now();
    let t1 = t0 + Duration::seconds(1);
    let mut before = dbstat(0, 0, 0);
    before.tup_returned = 0;
    before.tup_fetched = 0;
    before.tup_inserted = 0;
    before.tup_updated = 0;
    before.tup_deleted = 0;
    let mut after = dbstat(0, 0, 0);
    after.tup_returned = 100;
    after.tup_fetched = 50;
    after.tup_inserted = 5;
    after.tup_updated = 3;
    after.tup_deleted = 2;
    let report = compute(&snap(t0, before, vec![]), &snap(t1, after, vec![])).unwrap();
    assert_eq!(report.rows_read, 150);
    assert_eq!(report.rows_written, 10);
}

// ----- further cases -----

#[test]
fn non_negative_delta_reports_difference_or_post_reset_value() {
    let mut reset = false;
    assert_eq!(non_negative_delta(10, 25, &mut reset), 15);
    assert!(!reset);
    assert_eq!(non_negative_delta(10, 10, &mut reset), 0);
    assert!(!reset);
    assert_eq!(non_negative_delta(500, 20, &mut reset), 20);
    assert!(reset);
    // once raised, the flag stays raised
    assert_eq!(non_negative_delta(1, 2, &mut reset), 1);
    assert!(reset);
}

#[test]
fn total_writes_adds_inserts_updates_deletes() {
    let t = TableDelta {
        schema: "public".into(),
        table: "t".into(),
        seq_scan: 7,
        idx_scan: 9,
        n_tup_ins: 3,
        n_tup_upd: 4,
        n_tup_del: 5,
        live_tup_delta: -2,
        dead_tup_delta: 1,
    };
    assert_eq!(t.total_writes(), 12);
}

#[test]
fn table_key_is_schema_and_name() {
    let t = tstat("sales", "orders", 0, 0, 0);
    assert_eq!(t.key(), ("sales", "orders"));
}

#[test]
fn every_database_counter_uses_its_own_column() {
    let t0 = Utc::now();
    let t1 = t0 + Duration::milliseconds(2500);
    let before = DatabaseStat {
        numbackends: 4,
        xact_commit: 1,
        xact_rollback: 2,
        blks_read: 3,
        blks_hit: 4,
        tup_returned: 5,
        tup_fetched: 6,
        tup_inserted: 7,
        tup_updated: 8,
        tup_deleted: 9,
        temp_files: 10,
        temp_bytes: 11,
        deadlocks: 12,
        stats_reset: None,
    };
    let after = DatabaseStat {
        numbackends: 9,
        xact_commit: 101,
        xact_rollback: 202,
        blks_read: 303,
        blks_hit: 404,
        tup_returned: 505,
        tup_fetched: 606,
        tup_inserted: 707,
        tup_updated: 808,
        tup_deleted: 909,
        temp_files: 1010,
        temp_bytes: 1111,
        deadlocks: 1212,
        stats_reset: None,
    };
    let r = compute(&snap(t0, before, vec![]), &snap(t1, after, vec![])).unwrap();
    assert_eq!(r.elapsed_millis, 2500);
    assert!(!r.reset_detected);
    assert_eq!(r.commits, 100);
    assert_eq!(r.rollbacks, 200);
    assert_eq!(r.cache_hit_ratio, Some((400, 700)));
    assert_eq!(r.rows_read, 500 + 600);
    assert_eq!(r.rows_written, 700 + 800 + 900);
    assert_eq!(r.temp_files, 1000);
    assert_eq!(r.temp_bytes, 1100);
    assert_eq!(r.deadlocks, 1200);
    assert_eq!(r.numbackends_before, 4);
    assert_eq!(r.numbackends_after, 9);
}

#[test]
fn reset_time_appearing_counts_as_reset() {
    let t0 = Utc::now();
    let t1 = t0 + Duration::seconds(1);
    let mut before = dbstat(5, 0, 0);
    before.stats_reset = None;
    let after = dbstat(6, 0, 0);
    let r = compute(&snap(t0, before, vec![]), &snap(t1, after, vec![])).unwrap();
    assert!(r.reset_detected);
    assert_eq!(r.commits, 1);
}

#[test]
fn reset_time_disappearing_is_not_a_reset() {
    let t0 = Utc::now();
    let t1 = t0 + Duration::seconds(1);
    let before = dbstat(5, 0, 0);
    let mut after = dbstat(6, 0, 0);
    after.stats_reset = None;
    let r = compute(&snap(t0, before, vec![]), &snap(t1, after, vec![])).unwrap();
    assert!(!r.reset_detected);
}

#[test]
fn table_counter_drop_counts_as_reset() {
    let t0 = Utc::now();
    let t1 = t0 + Duration::seconds(1);
    let mut b = tstat("public", "t", 0, 0, 0);
    b.seq_scan = 40;
    let mut a = tstat("public", "t", 0, 0, 0);
    a.seq_scan = 3;
    let r = compute(&snap(t0, dbstat(0, 0, 0), vec![b]), &snap(t1, dbstat(0, 0, 0), vec![a])).unwrap();
    assert!(r.reset_detected);
    assert_eq!(r.tables[0].seq_scan, 3);
}

#[test]
fn equally_busy_tables_keep_after_snapshot_order() {
    let t0 = Utc::now();
    let t1 = t0 + Duration::seconds(1);
    let names = ["a", "b", "c", "d"];
    let before: Vec<TableStat> = names.iter().map(|n| tstat("s", n, 0, 0, 0)).collect();
    let after = vec![
        tstat("s", "a", 5, 0, 0),
        tstat("s", "b", 9, 0, 0),
        tstat("s", "c", 5, 0, 0),
        tstat("s", "d", 9, 0, 0),
    ];
    let r = compute(&snap(t0, dbstat(0, 0, 0), before), &snap(t1, dbstat(0, 0, 0), after)).unwrap();
    let order: Vec<&str> = r.tables.iter().map(|t| t.table.as_str()).collect();
    assert_eq!(order, vec!["b", "d", "a", "c"]);
}

#[test]
fn later_before_row_with_same_key_wins() {
    let t0 = Utc::now();
    let t1 = t0 + Duration::seconds(1);
    let before = vec![tstat("s", "t", 1, 0, 0), tstat("s", "t", 10, 0, 0)];
    let after = vec![tstat("s", "t", 12, 0, 0)];
    let r = compute(&snap(t0, dbstat(0, 0, 0), before), &snap(t1, dbstat(0, 0, 0), after)).unwrap();
    assert_eq!(r.tables.len(), 1);
    assert_eq!(r.tables[0].n_tup_ins, 2);
    assert_eq!(r.tables[0].live_tup_delta, 2);
    assert!(!r.reset_detected);
}

#[test]
fn same_name_in_another_schema_is_another_table() {
    let t0 = Utc::now();
    let t1 = t0 + Duration::seconds(1);
    let before = vec![tstat("a", "t", 1, 0, 0)];
    let after = vec![tstat("b", "t", 12, 0, 0)];
    let r = compute(&snap(t0, dbstat(0, 0, 0), before), &snap(t1, dbstat(0, 0, 0), after)).unwrap();
    assert!(r.tables.is_empty());
}

#[test]
fn live_and_dead_deltas_may_be_negative() {
    let t0 = Utc::now();
    let t1 = t0 + Duration::seconds(1);
    let mut b = tstat("s", "t", 0, 0, 0);
    b.n_live_tup = 100;
    b.n_dead_tup = 50;
    let mut a = tstat("s", "t", 0, 0, 0);
    a.n_live_tup = 60;
    a.n_dead_tup = 0;
    let r = compute(&snap(t0, dbstat(0, 0, 0), vec![b]), &snap(t1, dbstat(0, 0, 0), vec![a])).unwrap();
    assert_eq!(r.tables[0].live_tup_delta, -40);
    assert_eq!(r.tables[0].dead_tup_delta, -50);
    assert!(!r.reset_detected);
}

#[test]
fn sub_millisecond_interval_is_not_positive() {
    let t0 = DateTime::from_timestamp(1_700_000_000, 100).unwrap();
    let t1 = t0 + Duration::microseconds(900);
    let err = compute(&snap(t0, dbstat(0, 0, 0), vec![]), &snap(t1, dbstat(0, 0, 0), vec![])).unwrap_err();
    assert!(matches!(err, DiffError::NonPositiveElapsed { .. }));
    let t2 = t0 + Duration::microseconds(1000);
    let r = compute(&snap(t0, dbstat(0, 0, 0), vec![]), &snap(t2, dbstat(0, 0, 0), vec![])).unwrap();
    assert_eq!(r.elapsed_millis, 1);
}

#[test]
fn different_database_is_refused_before_elapsed_time() {
    let t0 = Utc::now();
    let mut before = snap(t0, dbstat(0, 0, 0), vec![]);
    before.database_name = "x".into();
    let after = snap(t0, dbstat(0, 0, 0), vec![]);
    match compute(&before, &after) {
        Err(DiffError::DifferentDatabase { before, after }) => {
            assert_eq!(before, "x");
            assert_eq!(after, "testdb");
        }
        other => panic!("unexpected {:?}", other),
    }
}

#[test]
fn compute_with_elapsed_takes_the_given_interval() {
    let t0 = Utc::now();
    let before = snap(t0, dbstat(1, 0, 0), vec![]);
    let after = snap(t0, dbstat(4, 0, 0), vec![]);
    let r = compute_with_elapsed(&before, &after, 1234).unwrap();
    assert_eq!(r.elapsed_millis, 1234);
    assert_eq!(r.commits, 3);
    assert!(matches!(
        compute_with_elapsed(&before, &after, 0),
        Err(DiffError::NonPositiveElapsed { .. })
    ));
}

#[test]
fn counters_in_range_spots_overflow() {
    let t0 = Utc::now();
    let t1 = t0 + Duration::seconds(1);
    let ok_before = snap(t0, dbstat(0, 0, 0), vec![]);
    let ok_after = snap(t1, dbstat(5, 0, 0), vec![]);
    assert!(counters_in_range(&ok_before, &ok_after));
    let bad_before = snap(t0, dbstat(i64::MIN, 0, 0), vec![]);
    let bad_after = snap(t1, dbstat(i64::MAX, 0, 0), vec![]);
    assert!(!counters_in_range(&bad_before, &bad_after));
    let hits_before = snap(t0, dbstat(0, 0, 0), vec![]);
    let hits_after = snap(t1, dbstat(0, i64::MAX, i64::MAX), vec![]);
    assert!(!counters_in_range(&hits_before, &hits_after));
    let mut big = tstat("s", "t", i64::MAX, 0, 0);
    big.n_tup_upd = i64::MAX;
    let tb = snap(t0, dbstat(0, 0, 0), vec![tstat("s", "t", 0, 0, 0)]);
    let ta = snap(t1, dbstat(0, 0, 0), vec![big]);
    assert!(!counters_in_range(&tb, &ta));
}

#[test]
fn deltas_stay_non_negative_with_non_negative_counters() {
    let t0 = Utc::now();
    let t1 = t0 + Duration::seconds(3);
    let before = snap(t0, dbstat(900, 400, 300), vec![tstat("s", "t", 80, 70, 60)]);
    let after = snap(t1, dbstat(10, 20, 30), vec![tstat("s", "t", 1, 2, 3)]);
    let r = compute(&before, &after).unwrap();
    assert!(r.reset_detected);
    assert_eq!(r.commits, 10);
    assert_eq!(r.cache_hit_ratio, Some((30, 50)));
    assert_eq!(r.tables[0].total_writes(), 6);
}

#[test]
fn table_with_no_activity_is_left_out() {
    let t0 = Utc::now();
    let t1 = t0 + Duration::seconds(10);
    let before = vec![tstat("s", "idle", 10, 2, 1), tstat("s", "busy", 1, 0, 0)];
    let after = vec![tstat("s", "idle", 10, 2, 1), tstat("s", "busy", 2, 0, 0)];
    let r = compute(&snap(t0, dbstat(0, 0, 0), before), &snap(t1, dbstat(0, 0, 0), after)).unwrap();
    assert_eq!(r.tables.len(), 1);
    assert_eq!(r.tables[0].table, "busy");
}

#[test]
fn table_whose_tuple_counts_moved_is_active() {
    let t0 = Utc::now();
    let t1 = t0 + Duration::seconds(10);
    let b = tstat("s", "vacuumed", 10, 2, 1);
    let mut a = tstat("s", "vacuumed", 10, 2, 1);
    a.n_dead_tup = 0;
    let r = compute(&snap(t0, dbstat(0, 0, 0), vec![b]), &snap(t1, dbstat(0, 0, 0), vec![a])).unwrap();
    assert_eq!(r.tables.len(), 1);
    assert_eq!(r.tables[0].dead_tup_delta, -3);
    assert_eq!(r.tables[0].total_writes(), 0);
}

#[test]
fn table_reset_to_zero_is_left_out_but_counts_as_reset() {
    let t0 = Utc::now();
    let t1 = t0 + Duration::seconds(10);
    let b = tstat("s", "t", 10, 0, 0);
    let mut a = tstat("s", "t", 0, 0, 0);
    a.n_live_tup = 10;
    let r = compute(&snap(t0, dbstat(0, 0, 0), vec![b]), &snap(t1, dbstat(0, 0, 0), vec![a])).unwrap();
    assert!(r.tables.is_empty());
    assert!(r.reset_detected);
}

#[test]
fn compute_checked_refuses_only_overflow_on_a_positive_interval() {
    let t0 = Utc::now();
    let t1 = t0 + Duration::seconds(1);
    let low = dbstat(i64::MIN, 0, 0);
    let high = dbstat(i64::MAX, 0, 0);
    assert!(compute_checked(&snap(t0, low, vec![]), &snap(t1, high, vec![])).is_none());
    // in the wrong order the interval is refused first, as without overflow
    let outcome = compute_checked(&snap(t1, low, vec![]), &snap(t0, high, vec![])).unwrap();
    assert!(matches!(outcome, Err(DiffError::NonPositiveElapsed { .. })));
    let mut other = snap(t1, high, vec![]);
    other.database_name = "other".into();
    let outcome = compute_checked(&snap(t0, low, vec![]), &other).unwrap();
    assert!(matches!(outcome, Err(DiffError::DifferentDatabase { .. })));
    let fine = compute_checked(&snap(t0, dbstat(1, 0, 0), vec![]), &snap(t1, dbstat(3, 0, 0), vec![]))
        .unwrap()
        .unwrap();
    assert_eq!(fine.commits, 2);
}
