# pgstatdiff

Snapshots Postgres's `pg_stat_database` and `pg_stat_user_tables` twice and
reports the delta: commits and rollbacks, the cache hit ratio of the
interval, rows read and written, temp files, deadlocks and the busiest
tables.

Layout:

- `src/` — the verified library:
  - `timestamp.rs` — instants as chrono represents them; the elapsed time
    between two snapshots is measured by chrono.
  - `model.rs` — the snapshot types.
  - `diff.rs` — the delta computation, its specification and its laws
    (resets, interval cache ratio, tables present in both snapshots,
    busiest-first stable ordering).
  - `text.rs`, `render.rs` — decimal numerals, column padding, byte units
    and the text report.
- `app/` — the command line: Postgres queries, snapshot files (JSON),
  the floating-point rates and the JSON report.
- `tests/` — tests of the library.
