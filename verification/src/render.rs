//! The text report. Figures that are computed in floating point (the
//! interval in seconds, the per-second rates and the cache hit percentage)
//! arrive already written out; everything else is laid out here.

use crate::diff::{DeltaReport, TableDelta};
use crate::text::{
    decimal_string, digit_str, push_decimal, push_decimal_padded, push_digits, push_padded_left,
    push_padded_right,
};
use vstd::prelude::*;

verus! {

/// `a / d` rounded to the nearest integer, ties to the even one (`a >= 0`,
/// `d > 0`).
pub open spec fn round_half_even(a: int, d: int) -> int {
    let q = a / d;
    let r = a % d;
    if 2 * r > d {
        q + 1
    } else if 2 * r < d {
        q
    } else if q % 2 == 0 {
        q
    } else {
        q + 1
    }
}

/// `n / unit` written with one decimal, as `{:.1}` writes the exact
/// quotient (nearest tenth, ties to even).
pub open spec fn one_decimal(n: int, unit: int) -> Seq<char> {
    let tenths = round_half_even(10 * n, unit);
    crate::text::digits((tenths / 10) as nat) + "."@ + seq![crate::text::digit_char(tenths % 10)]
}

/// The step between neighbouring `f64` values around the magnitude `m`
/// (1 below 2^53, then doubling with each further bit).
pub open spec fn f64_step(m: nat) -> nat
    decreases m,
{
    if m < 9_007_199_254_740_992 {
        1
    } else {
        2 * f64_step(m / 2)
    }
}

/// The magnitude of the `f64` nearest to `m` (ties to the even neighbour),
/// which is what `as f64` gives.
pub open spec fn f64_magnitude(m: nat) -> int {
    round_half_even(m as int, f64_step(m) as int) * f64_step(m)
}

/// The integer value of `n as f64`.
pub open spec fn as_f64_value(n: int) -> int {
    if n < 0 {
        -f64_magnitude((-n) as nat)
    } else {
        f64_magnitude(n as nat)
    }
}

/// A byte count in the largest unit it reaches: MiB and KiB with one
/// decimal, bytes as a whole number. The count is first taken as the
/// nearest `f64` (exact up to 2^53 in magnitude).
pub open spec fn bytes_text(n: int) -> Seq<char> {
    let x = as_f64_value(n);
    if x >= 1_048_576 {
        one_decimal(x, 1_048_576) + " MiB"@
    } else if x >= 1024 {
        one_decimal(x, 1024) + " KiB"@
    } else {
        crate::text::decimal(x) + " B"@
    }
}

/// The magnitude of the `f64` nearest to `m`.
fn nearest_f64_magnitude(m: u64) -> (r: u64)
    requires
        m <= 0x8000_0000_0000_0000,
    ensures
        r == f64_magnitude(m as nat),
        m >= 1 ==> r >= 1,
{
    let mut q: u64 = m;
    let mut unit: u64 = 1;
    while q >= 9_007_199_254_740_992
        invariant
            1 <= unit <= 2048,
            q == m / unit,
            unit * q <= m,
            m >= 1 ==> q >= 1,
            f64_step(m as nat) == unit * f64_step(q as nat),
            m <= 0x8000_0000_0000_0000,
        decreases q,
    {
        proof {
            assert(unit <= 1024) by (nonlinear_arith)
                requires
                    unit * q <= m,
                    q >= 9_007_199_254_740_992,
                    m <= 0x8000_0000_0000_0000,
                    unit >= 1,
            ;
            vstd::arithmetic::div_mod::lemma_div_denominator(m as int, unit as int, 2);
            assert(f64_step(q as nat) == 2 * f64_step((q / 2) as nat));
            assert(unit * f64_step(q as nat) == (unit * 2) * f64_step((q / 2) as nat))
                by (nonlinear_arith)
                requires
                    f64_step(q as nat) == 2 * f64_step((q / 2) as nat),
            ;
            assert((unit * 2) * (q / 2) <= unit * q) by (nonlinear_arith)
                requires
                    unit >= 1,
            ;
        }
        q = q / 2;
        unit = unit * 2;
    }
    let rem: u64 = m % unit;
    proof {
        assert(m == unit * q + rem && rem < unit) by (nonlinear_arith)
            requires
                q == m / unit,
                rem == m % unit,
                unit >= 1,
        ;
    }
    let rounded: u64 = if 2 * rem > unit {
        q + 1
    } else if 2 * rem < unit {
        q
    } else if q % 2 == 0 {
        q
    } else {
        q + 1
    };
    proof {
        assert(f64_step(q as nat) == 1);
        assert(f64_step(m as nat) == unit * f64_step(q as nat));
        assert(unit == f64_step(m as nat)) by (nonlinear_arith)
            requires
                f64_step(q as nat) == 1,
                f64_step(m as nat) == unit * f64_step(q as nat),
        ;
        assert(rounded == round_half_even(m as int, unit as int));
        assert(rounded * unit <= m + unit) by (nonlinear_arith)
            requires
                rounded <= q + 1,
                m == unit * q + rem,
                unit >= 1,
        ;
        assert(m >= 1 ==> rounded * unit >= 1) by (nonlinear_arith)
            requires
                m >= 1 ==> q >= 1,
                rounded >= q,
                unit >= 1,
        ;
    }
    rounded * unit
}

/// Appends `n / unit` with one decimal.
fn push_one_decimal(out: &mut String, n: u64, unit: u64)
    requires
        unit > 0,
    ensures
        final(out)@ == old(out)@ + one_decimal(n as int, unit as int),
{
    let a: u128 = n as u128 * 10;
    let d: u128 = unit as u128;
    let q: u128 = a / d;
    let r: u128 = a % d;
    proof {
        assert(q <= a) by (nonlinear_arith)
            requires
                q == a / d,
                d > 0,
        ;
    }
    let tenths: u128 = if 2 * r > d {
        q + 1
    } else if 2 * r < d {
        q
    } else if q % 2 == 0 {
        q
    } else {
        q + 1
    };
    assert(tenths == round_half_even(10 * n, unit as int));
    push_digits(out, (tenths / 10) as u64);
    proof {
        reveal_strlit(".");
    }
    out.append(".");
    out.append(digit_str((tenths % 10) as u64));
    assert(out@ =~= old(out)@ + one_decimal(n as int, unit as int));
}

/// A byte count in B, KiB or MiB, as the count's nearest `f64` reads.
pub fn fmt_bytes(n: i64) -> (r: String)
    ensures
        r@ == bytes_text(n as int),
{
    let negative = n < 0;
    let magnitude: u64 = if negative {
        (0i128 - n as i128) as u64
    } else {
        n as u64
    };
    let x = nearest_f64_magnitude(magnitude);
    let mut out = String::new();
    if !negative && x >= 1_048_576 {
        push_one_decimal(&mut out, x, 1_048_576);
        out.append(" MiB");
    } else if !negative && x >= 1024 {
        push_one_decimal(&mut out, x, 1024);
        out.append(" KiB");
    } else {
        if negative {
            proof {
                reveal_strlit("-");
            }
            out.append("-");
        }
        push_digits(&mut out, x);
        out.append(" B");
    }
    assert(out@ =~= bytes_text(n as int));
    out
}

/// The figures of a report that are computed in floating point, already
/// written out as the report prints them.
#[derive(Clone, Debug)]
pub struct RateText {
    /// Elapsed seconds, one decimal.
    pub interval_secs: String,
    /// Commits per second, two decimals.
    pub commits_per_sec: String,
    /// Rollbacks per second, two decimals.
    pub rollbacks_per_sec: String,
    /// The cache hit ratio as a percentage with one decimal (read only when
    /// the report has a ratio).
    pub cache_hit_percent: String,
    /// Rows read per second, one decimal.
    pub rows_read_per_sec: String,
    /// Rows written per second, one decimal.
    pub rows_written_per_sec: String,
}

/// How many of the busiest tables the text shows.
pub const TOP_TABLES: usize = 15;

/// The cache hit ratio as shown: the percentage, or `n/a` when the interval
/// touched no block.
pub open spec fn ratio_text(ratio: Option<(i64, i64)>, percent: Seq<char>) -> Seq<char> {
    match ratio {
        Some(_) => percent + "%"@,
        None => "n/a"@,
    }
}

/// The cache hit ratio as shown.
pub fn fmt_ratio(ratio: &Option<(i64, i64)>, percent: &str) -> (r: String)
    ensures
        r@ == ratio_text(*ratio, percent@),
{
    match ratio {
        Some(_) => {
            let mut out = String::from_str(percent);
            out.append("%");
            out
        },
        None => String::from_str("n/a"),
    }
}

/// The notice printed when a counter reset was detected.
pub open spec fn reset_warning() -> Seq<char> {
    "WARNING: a stats counter reset was detected mid-interval (pg_stat_reset() or a server restart) \u{2014} deltas for affected counters use the post-reset value directly rather than a negative number\n"@
}

/// A counter line: label, value right-aligned, rate per second.
pub open spec fn counter_line(label: Seq<char>, value: i64, width: nat, rate: Seq<char>) -> Seq<
    char,
> {
    label + crate::text::pad_left(crate::text::decimal(value as int), width) + "  ("@ + rate + "/s)\n"@
}

/// The first line: interval and connected backends.
pub open spec fn interval_line(r: DeltaReport, rates: RateText) -> Seq<char> {
    "interval: "@ + rates.interval_secs@ + "s   backends: "@ + crate::text::decimal(r.numbackends_before as int)
        + " -> "@ + crate::text::decimal(r.numbackends_after as int) + "\n"@
}

/// The reset notice, when a reset was detected.
pub open spec fn warning_text(r: DeltaReport) -> Seq<char> {
    if r.reset_detected {
        reset_warning()
    } else {
        Seq::empty()
    }
}

/// The cache hit ratio line.
pub open spec fn ratio_line(r: DeltaReport, rates: RateText) -> Seq<char> {
    "cache hit ratio (this interval): "@ + ratio_text(r.cache_hit_ratio, rates.cache_hit_percent@)
        + "\n"@
}

/// The lines every report has, in order.
pub open spec fn summary_text(r: DeltaReport, rates: RateText) -> Seq<char> {
    interval_line(r, rates) + warning_text(r) + counter_line(
        "commits:    "@,
        r.commits,
        8,
        rates.commits_per_sec@,
    ) + counter_line("rollbacks:  "@, r.rollbacks, 8, rates.rollbacks_per_sec@) + ratio_line(
        r,
        rates,
    ) + counter_line("rows read:    "@, r.rows_read, 10, rates.rows_read_per_sec@) + counter_line(
        "rows written: "@,
        r.rows_written,
        10,
        rates.rows_written_per_sec@,
    )
}

/// The temp-file line (when any temp file or byte was written) and the
/// deadlock line (when any deadlock happened).
pub open spec fn incident_text(r: DeltaReport) -> Seq<char> {
    (if r.temp_files > 0 || r.temp_bytes > 0 {
        "temp files: "@ + crate::text::decimal(r.temp_files as int) + "  ("@ + bytes_text(r.temp_bytes as int)
            + " written)\n"@
    } else {
        Seq::empty()
    }) + (if r.deadlocks > 0 {
        "deadlocks: "@ + crate::text::decimal(r.deadlocks as int) + "\n"@
    } else {
        Seq::empty()
    })
}

/// A column after the first: a space, then the text right-aligned.
pub open spec fn column(s: Seq<char>, width: nat) -> Seq<char> {
    " "@ + crate::text::pad_left(s, width)
}

/// The column headings of the table section.
pub open spec fn table_header() -> Seq<char> {
    "  "@ + crate::text::pad_right("table"@, 24) + column("ins"@, 8) + column("upd"@, 8) + column("del"@, 8)
        + column("seq_scan"@, 10) + column("idx_scan"@, 8) + column("live\u{394}"@, 8) + "\n"@
}

/// One table's row.
pub open spec fn table_row(t: TableDelta) -> Seq<char> {
    "  "@ + crate::text::pad_right(t.schema@ + "."@ + t.table@, 24) + column(crate::text::decimal(t.n_tup_ins as int), 8)
        + column(crate::text::decimal(t.n_tup_upd as int), 8) + column(crate::text::decimal(t.n_tup_del as int), 8) + column(
        crate::text::decimal(t.seq_scan as int),
        10,
    ) + column(crate::text::decimal(t.idx_scan as int), 8) + column(crate::text::decimal(t.live_tup_delta as int), 8)
        + "\n"@
}

/// The rows of the given tables, in order.
pub open spec fn table_rows(ts: Seq<TableDelta>) -> Seq<char>
    decreases ts.len(),
{
    if ts.len() == 0 {
        Seq::empty()
    } else {
        table_rows(ts.drop_last()) + table_row(ts.last())
    }
}

/// How many tables were left out, when any were.
pub open spec fn more_tables_text(count: nat) -> Seq<char> {
    if count > TOP_TABLES {
        "  ... and "@ + crate::text::decimal(count - TOP_TABLES) + " more table(s) with activity\n"@
    } else {
        Seq::empty()
    }
}

/// The table section: nothing without tables; otherwise a heading, the
/// first `TOP_TABLES` tables and, when there are more, how many more.
pub open spec fn tables_text(ts: Seq<TableDelta>) -> Seq<char> {
    if ts.len() == 0 {
        Seq::empty()
    } else {
        let shown = if ts.len() < TOP_TABLES {
            ts.len() as int
        } else {
            TOP_TABLES as int
        };
        "\nBUSIEST TABLES (by rows written)\n"@ + table_header() + table_rows(ts.take(shown))
            + more_tables_text(ts.len())
    }
}

/// The whole text report.
pub open spec fn report_text(r: DeltaReport, rates: RateText) -> Seq<char> {
    summary_text(r, rates) + incident_text(r) + tables_text(r.tables@)
}

fn push_counter_line(out: &mut String, label: &str, value: i64, width: usize, rate: &str)
    ensures
        final(out)@ == old(out)@ + counter_line(label@, value, width as nat, rate@),
{
    out.append(label);
    push_decimal_padded(out, value, width);
    out.append("  (");
    out.append(rate);
    out.append("/s)\n");
    assert(out@ =~= old(out)@ + counter_line(label@, value, width as nat, rate@));
}

fn push_interval_line(out: &mut String, r: &DeltaReport, rates: &RateText)
    ensures
        final(out)@ == old(out)@ + interval_line(*r, *rates),
{
    out.append("interval: ");
    out.append(rates.interval_secs.as_str());
    out.append("s   backends: ");
    push_decimal(out, r.numbackends_before);
    out.append(" -> ");
    push_decimal(out, r.numbackends_after);
    out.append("\n");
    assert(out@ =~= old(out)@ + interval_line(*r, *rates));
}

fn push_warning(out: &mut String, r: &DeltaReport)
    ensures
        final(out)@ == old(out)@ + warning_text(*r),
{
    if r.reset_detected {
        out.append(
            "WARNING: a stats counter reset was detected mid-interval (pg_stat_reset() or a server restart) \u{2014} deltas for affected counters use the post-reset value directly rather than a negative number\n",
        );
    }
    assert(out@ =~= old(out)@ + warning_text(*r));
}

fn push_ratio_line(out: &mut String, r: &DeltaReport, rates: &RateText)
    ensures
        final(out)@ == old(out)@ + ratio_line(*r, *rates),
{
    out.append("cache hit ratio (this interval): ");
    let ratio = fmt_ratio(&r.cache_hit_ratio, rates.cache_hit_percent.as_str());
    out.append(ratio.as_str());
    out.append("\n");
    assert(out@ =~= old(out)@ + ratio_line(*r, *rates));
}

fn push_summary(out: &mut String, r: &DeltaReport, rates: &RateText)
    ensures
        final(out)@ == old(out)@ + summary_text(*r, *rates),
{
    let ghost s0 = out@;
    push_interval_line(out, r, rates);
    push_warning(out, r);
    push_counter_line(out, "commits:    ", r.commits, 8, rates.commits_per_sec.as_str());
    let ghost s1 = out@;
    assert(s1 =~= s0 + (interval_line(*r, *rates) + warning_text(*r) + counter_line(
        "commits:    "@,
        r.commits,
        8,
        rates.commits_per_sec@,
    )));
    push_counter_line(out, "rollbacks:  ", r.rollbacks, 8, rates.rollbacks_per_sec.as_str());
    push_ratio_line(out, r, rates);
    let ghost s2 = out@;
    assert(s2 =~= s0 + (interval_line(*r, *rates) + warning_text(*r) + counter_line(
        "commits:    "@,
        r.commits,
        8,
        rates.commits_per_sec@,
    ) + counter_line("rollbacks:  "@, r.rollbacks, 8, rates.rollbacks_per_sec@) + ratio_line(
        *r,
        *rates,
    )));
    push_counter_line(out, "rows read:    ", r.rows_read, 10, rates.rows_read_per_sec.as_str());
    push_counter_line(
        out,
        "rows written: ",
        r.rows_written,
        10,
        rates.rows_written_per_sec.as_str(),
    );
    assert(out@ =~= s0 + summary_text(*r, *rates));
}

fn push_incidents(out: &mut String, r: &DeltaReport)
    ensures
        final(out)@ == old(out)@ + incident_text(*r),
{
    let ghost start = out@;
    if r.temp_files > 0 || r.temp_bytes > 0 {
        out.append("temp files: ");
        push_decimal(out, r.temp_files);
        out.append("  (");
        let bytes = fmt_bytes(r.temp_bytes);
        out.append(bytes.as_str());
        out.append(" written)\n");
    }
    if r.deadlocks > 0 {
        out.append("deadlocks: ");
        push_decimal(out, r.deadlocks);
        out.append("\n");
    }
    assert(out@ =~= start + incident_text(*r));
}

fn push_column(out: &mut String, s: &str, width: usize)
    ensures
        final(out)@ == old(out)@ + column(s@, width as nat),
{
    out.append(" ");
    push_padded_left(out, s, width);
    assert(out@ =~= old(out)@ + column(s@, width as nat));
}

fn push_number_column(out: &mut String, n: i64, width: usize)
    ensures
        final(out)@ == old(out)@ + column(crate::text::decimal(n as int), width as nat),
{
    let numeral = decimal_string(n);
    push_column(out, numeral.as_str(), width);
}

fn push_table_header(out: &mut String)
    ensures
        final(out)@ == old(out)@ + table_header(),
{
    let ghost s0 = out@;
    out.append("  ");
    push_padded_right(out, "table", 24);
    let ghost s1 = out@;
    assert(s1 =~= s0 + ("  "@ + crate::text::pad_right("table"@, 24)));
    push_column(out, "ins", 8);
    push_column(out, "upd", 8);
    push_column(out, "del", 8);
    let ghost s2 = out@;
    assert(s2 =~= s0 + ("  "@ + crate::text::pad_right("table"@, 24) + column("ins"@, 8) + column("upd"@, 8)
        + column("del"@, 8)));
    push_column(out, "seq_scan", 10);
    push_column(out, "idx_scan", 8);
    push_column(out, "live\u{394}", 8);
    out.append("\n");
    assert(out@ =~= s0 + table_header());
}

fn push_table_row(out: &mut String, t: &TableDelta)
    ensures
        final(out)@ == old(out)@ + table_row(*t),
{
    let ghost s0 = out@;
    let mut name = t.schema.clone();
    name.append(".");
    name.append(t.table.as_str());
    out.append("  ");
    push_padded_right(out, name.as_str(), 24);
    let ghost s1 = out@;
    assert(s1 =~= s0 + ("  "@ + crate::text::pad_right(t.schema@ + "."@ + t.table@, 24)));
    push_number_column(out, t.n_tup_ins, 8);
    push_number_column(out, t.n_tup_upd, 8);
    push_number_column(out, t.n_tup_del, 8);
    let ghost s2 = out@;
    assert(s2 =~= s0 + ("  "@ + crate::text::pad_right(t.schema@ + "."@ + t.table@, 24) + column(
        crate::text::decimal(t.n_tup_ins as int),
        8,
    ) + column(crate::text::decimal(t.n_tup_upd as int), 8) + column(crate::text::decimal(t.n_tup_del as int), 8)));
    push_number_column(out, t.seq_scan, 10);
    push_number_column(out, t.idx_scan, 8);
    push_number_column(out, t.live_tup_delta, 8);
    out.append("\n");
    assert(out@ =~= s0 + table_row(*t));
}

fn push_more_tables(out: &mut String, count: usize)
    ensures
        final(out)@ == old(out)@ + more_tables_text(count as nat),
{
    if count > TOP_TABLES {
        out.append("  ... and ");
        push_digits(out, (count - TOP_TABLES) as u64);
        out.append(" more table(s) with activity\n");
    }
    assert(out@ =~= old(out)@ + more_tables_text(count as nat));
}

fn push_tables(out: &mut String, tables: &Vec<TableDelta>)
    ensures
        final(out)@ == old(out)@ + tables_text(tables@),
{
    let ghost start = out@;
    if tables.len() == 0 {
        assert(out@ =~= start + tables_text(tables@));
        return;
    }
    out.append("\nBUSIEST TABLES (by rows written)\n");
    push_table_header(out);
    let shown: usize = if tables.len() < TOP_TABLES {
        tables.len()
    } else {
        TOP_TABLES
    };
    let ghost head = out@;
    let mut i: usize = 0;
    while i < shown
        invariant
            i <= shown,
            shown <= tables@.len(),
            out@ == head + table_rows(tables@.take(i as int)),
        decreases shown - i,
    {
        assert(tables@.take(i + 1).drop_last() =~= tables@.take(i as int));
        push_table_row(out, &tables[i]);
        i = i + 1;
        assert(out@ =~= head + table_rows(tables@.take(i as int)));
    }
    let ghost rows = out@;
    assert(rows =~= start + ("\nBUSIEST TABLES (by rows written)\n"@ + table_header() + table_rows(
        tables@.take(shown as int),
    )));
    push_more_tables(out, tables.len());
    assert(out@ =~= start + tables_text(tables@));
}

/// The text report of `report`, with the floating-point figures given as
/// text in `rates`.
pub fn render_text(report: &DeltaReport, rates: &RateText) -> (r: String)
    ensures
        r@ == report_text(*report, *rates),
{
    let mut out = String::new();
    push_summary(&mut out, report, rates);
    push_incidents(&mut out, report);
    push_tables(&mut out, &report.tables);
    assert(out@ =~= report_text(*report, *rates));
    out
}

// ----- Laws of the text -----

/// `line` occurs in `text` as a contiguous run of characters.
pub open spec fn occurs_in(text: Seq<char>, line: Seq<char>) -> bool {
    exists|k: int|
        0 <= k && k + line.len() <= text.len() && #[trigger] text.subrange(k, k + line.len())
            == line
}

proof fn lemma_occurs_at(text: Seq<char>, pre: Seq<char>, line: Seq<char>, post: Seq<char>)
    requires
        text == pre + line + post,
    ensures
        occurs_in(text, line),
{
    let k = pre.len() as int;
    assert(text.subrange(k, k + line.len()) =~= line);
}

/// A report with deadlocks in the interval shows `deadlocks: ` and their
/// number on a line.
pub proof fn lemma_deadlocks_are_shown(r: DeltaReport, rates: RateText)
    requires
        r.deadlocks > 0,
    ensures
        occurs_in(report_text(r, rates), "deadlocks: "@ + crate::text::decimal(r.deadlocks as int) + "\n"@),
{
    let line = "deadlocks: "@ + crate::text::decimal(r.deadlocks as int) + "\n"@;
    let temp = if r.temp_files > 0 || r.temp_bytes > 0 {
        "temp files: "@ + crate::text::decimal(r.temp_files as int) + "  ("@ + bytes_text(
            r.temp_bytes as int,
        ) + " written)\n"@
    } else {
        Seq::empty()
    };
    assert(incident_text(r) == temp + line);
    assert(report_text(r, rates) =~= (summary_text(r, rates) + temp) + line + tables_text(
        r.tables@,
    ));
    lemma_occurs_at(
        report_text(r, rates),
        summary_text(r, rates) + temp,
        line,
        tables_text(r.tables@),
    );
}

/// A report with temp files or bytes in the interval shows how many files
/// and how many bytes they held.
pub proof fn lemma_temp_files_are_shown(r: DeltaReport, rates: RateText)
    requires
        r.temp_files > 0 || r.temp_bytes > 0,
    ensures
        occurs_in(
            report_text(r, rates),
            "temp files: "@ + crate::text::decimal(r.temp_files as int) + "  ("@ + bytes_text(
                r.temp_bytes as int,
            ) + " written)\n"@,
        ),
{
    let line = "temp files: "@ + crate::text::decimal(r.temp_files as int) + "  ("@ + bytes_text(
        r.temp_bytes as int,
    ) + " written)\n"@;
    let dead = if r.deadlocks > 0 {
        "deadlocks: "@ + crate::text::decimal(r.deadlocks as int) + "\n"@
    } else {
        Seq::empty()
    };
    assert(incident_text(r) == line + dead);
    assert(report_text(r, rates) =~= summary_text(r, rates) + line + (dead + tables_text(
        r.tables@,
    )));
    lemma_occurs_at(
        report_text(r, rates),
        summary_text(r, rates),
        line,
        dead + tables_text(r.tables@),
    );
}

/// A report with a detected reset shows the reset warning.
pub proof fn lemma_reset_warning_is_shown(r: DeltaReport, rates: RateText)
    requires
        r.reset_detected,
    ensures
        occurs_in(report_text(r, rates), reset_warning()),
{
    let after_warning = counter_line("commits:    "@, r.commits, 8, rates.commits_per_sec@)
        + counter_line("rollbacks:  "@, r.rollbacks, 8, rates.rollbacks_per_sec@) + ratio_line(
        r,
        rates,
    ) + counter_line("rows read:    "@, r.rows_read, 10, rates.rows_read_per_sec@)
        + counter_line("rows written: "@, r.rows_written, 10, rates.rows_written_per_sec@)
        + incident_text(r) + tables_text(r.tables@);
    assert(report_text(r, rates) =~= interval_line(r, rates) + reset_warning() + after_warning);
    lemma_occurs_at(report_text(r, rates), interval_line(r, rates), reset_warning(), after_warning);
}

proof fn lemma_table_rows_hold_each(ts: Seq<TableDelta>, i: int)
    requires
        0 <= i < ts.len(),
    ensures
        exists|pre: Seq<char>, post: Seq<char>|
            table_rows(ts) == pre + ("  "@ + crate::text::pad_right(
                ts[i].schema@ + "."@ + ts[i].table@,
                24,
            )) + post,
    decreases ts.len(),
{
    let name = "  "@ + crate::text::pad_right(ts[i].schema@ + "."@ + ts[i].table@, 24);
    let last = ts.last();
    if i == ts.len() - 1 {
        let rest = table_row(last).skip(name.len() as int);
        assert(table_row(last) =~= name + rest);
        assert(table_rows(ts) =~= table_rows(ts.drop_last()) + name + rest);
    } else {
        assert(ts.drop_last()[i] == ts[i]);
        lemma_table_rows_hold_each(ts.drop_last(), i);
        let (pre, post) = choose|pre: Seq<char>, post: Seq<char>|
            table_rows(ts.drop_last()) == pre + name + post;
        assert(table_rows(ts) =~= pre + name + (post + table_row(last)));
    }
}

/// Each of the first fifteen reported tables is listed under its
/// `schema.table` name.
pub proof fn lemma_busiest_tables_are_listed(r: DeltaReport, rates: RateText, i: int)
    requires
        0 <= i < r.tables@.len(),
        i < 15,
    ensures
        occurs_in(
            report_text(r, rates),
            "  "@ + crate::text::pad_right(r.tables@[i].schema@ + "."@ + r.tables@[i].table@, 24),
        ),
{
    let ts = r.tables@;
    let shown: int = if ts.len() < 15 {
        ts.len() as int
    } else {
        15
    };
    assert(ts.take(shown)[i] == ts[i]);
    lemma_table_rows_hold_each(ts.take(shown), i);
    let name = "  "@ + crate::text::pad_right(ts[i].schema@ + "."@ + ts[i].table@, 24);
    let (pre, post) = choose|pre: Seq<char>, post: Seq<char>|
        table_rows(ts.take(shown)) == pre + name + post;
    let head = summary_text(r, rates) + incident_text(r) + "\nBUSIEST TABLES (by rows written)\n"@
        + table_header();
    assert(report_text(r, rates) =~= (head + pre) + name + (post + more_tables_text(ts.len())));
    lemma_occurs_at(report_text(r, rates), head + pre, name, post + more_tables_text(ts.len()));
}

/// With more than fifteen tables, the text says how many more there are.
pub proof fn lemma_remaining_tables_are_counted(r: DeltaReport, rates: RateText)
    requires
        r.tables@.len() > 15,
    ensures
        occurs_in(
            report_text(r, rates),
            "  ... and "@ + crate::text::decimal(r.tables@.len() - 15)
                + " more table(s) with activity\n"@,
        ),
{
    let line = "  ... and "@ + crate::text::decimal(r.tables@.len() - 15)
        + " more table(s) with activity\n"@;
    let pre = summary_text(r, rates) + incident_text(r) + "\nBUSIEST TABLES (by rows written)\n"@
        + table_header() + table_rows(r.tables@.take(15));
    assert(report_text(r, rates) =~= pre + line + Seq::<char>::empty());
    lemma_occurs_at(report_text(r, rates), pre, line, Seq::<char>::empty());
}

/// Counts under 1024 are whole bytes; whole numbers of KiB (under 1 MiB)
/// and of MiB (within `f64`'s exact range) read with one zero decimal.
pub proof fn lemma_byte_units(n: int, k: int)
    ensures
        0 <= n < 1024 ==> bytes_text(n) == crate::text::decimal(n) + " B"@,
        1 <= k < 1024 ==> bytes_text(1024 * k) == crate::text::digits(k as nat) + "."@ + seq![
            '0',
        ] + " KiB"@,
        1 <= k < 0x2_0000_0000 ==> bytes_text(1_048_576 * k) == crate::text::digits(k as nat)
            + "."@ + seq!['0'] + " MiB"@,
{
    if 0 <= n < 1024 {
        assert(f64_step(n as nat) == 1);
        assert(f64_magnitude(n as nat) == n);
    }
    if 1 <= k < 1024 {
        let m = 1024 * k;
        assert(f64_step(m as nat) == 1);
        assert(round_half_even(m, 1) == m);
        assert(f64_magnitude(m as nat) == m);
        assert((10 * m) / 1024 == 10 * k && (10 * m) % 1024 == 0) by (nonlinear_arith)
            requires
                m == 1024 * k,
        ;
        assert(round_half_even(10 * m, 1024) == 10 * k);
        assert((10 * k) / 10 == k && (10 * k) % 10 == 0) by (nonlinear_arith);
    }
    if 1 <= k < 0x2_0000_0000 {
        let m = 1_048_576 * k;
        assert(m < 9_007_199_254_740_992) by (nonlinear_arith)
            requires
                m == 1_048_576 * k,
                k < 0x2_0000_0000,
        ;
        assert(f64_step(m as nat) == 1);
        assert(round_half_even(m, 1) == m);
        assert(f64_magnitude(m as nat) == m);
        assert((10 * m) / 1_048_576 == 10 * k && (10 * m) % 1_048_576 == 0) by (nonlinear_arith)
            requires
                m == 1_048_576 * k,
        ;
        assert(round_half_even(10 * m, 1_048_576) == 10 * k);
        assert((10 * k) / 10 == k && (10 * k) % 10 == 0) by (nonlinear_arith);
    }
}

} // verus!
