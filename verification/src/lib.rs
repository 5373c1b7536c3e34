//! Interval deltas between two snapshots of Postgres's cumulative statistics
//! views (`pg_stat_database`, `pg_stat_user_tables`), and the text report
//! built from them.

pub mod diff;
pub mod model;
pub mod render;
pub mod text;
pub mod timestamp;
