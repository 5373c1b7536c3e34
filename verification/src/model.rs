//! One snapshot of the statistics views: the connection's own database row
//! and every user table, with the instant it was taken.

use crate::timestamp::Timestamp;
use vstd::prelude::*;

verus! {

/// One `pg_stat_database` row for the connection's current database. Every
/// counter is cumulative: it only goes up, or back to zero when the server
/// resets its statistics, so two of them subtracted tell what happened in
/// between.
#[derive(Clone, Copy, Debug, PartialEq)]
pub struct DatabaseStat {
    pub numbackends: i64,
    pub xact_commit: i64,
    pub xact_rollback: i64,
    pub blks_read: i64,
    pub blks_hit: i64,
    pub tup_returned: i64,
    pub tup_fetched: i64,
    pub tup_inserted: i64,
    pub tup_updated: i64,
    pub tup_deleted: i64,
    pub temp_files: i64,
    pub temp_bytes: i64,
    pub deadlocks: i64,
    /// When the server last reset these counters; a change between two
    /// snapshots reveals a reset inside the interval.
    pub stats_reset: Option<Timestamp>,
}

/// One `pg_stat_user_tables` row.
#[derive(Clone, Debug, PartialEq)]
pub struct TableStat {
    pub schema: String,
    pub table: String,
    pub seq_scan: i64,
    pub idx_scan: i64,
    pub n_tup_ins: i64,
    pub n_tup_upd: i64,
    pub n_tup_del: i64,
    pub n_live_tup: i64,
    pub n_dead_tup: i64,
}

impl TableStat {
    /// The table's identity across snapshots: schema and name.
    pub fn key(&self) -> (r: (&str, &str))
        ensures
            r.0@ == self.schema@,
            r.1@ == self.table@,
    {
        (self.schema.as_str(), self.table.as_str())
    }
}

/// A full point-in-time capture: database-wide statistics plus every user
/// table, with the instant it was taken.
#[derive(Clone, Debug)]
pub struct Snapshot {
    pub taken_at: Timestamp,
    pub database_name: String,
    pub database: DatabaseStat,
    pub tables: Vec<TableStat>,
}

} // verus!
