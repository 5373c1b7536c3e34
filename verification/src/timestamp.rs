//! Instants as chrono represents them: whole seconds since the UNIX epoch and
//! the nanoseconds past that second (which reach past one second only inside
//! a leap second).

use chrono::{DateTime, Utc};
use vstd::prelude::*;

verus! {

/// Whether `chrono::DateTime::<Utc>::from_timestamp(secs, nanos)` gives an
/// instant: the day must lie between chrono's first date (January 1,
/// 262144 BCE, written -262143-01-01) and its last (December 31, 262142 CE),
/// and the nanoseconds must stay under one second, or under two inside a
/// leap second (the last second of a minute).
pub open spec fn chrono_represents(secs: i64, nanos: u32) -> bool {
    &&& -8_334_601_228_800 <= secs <= 8_210_266_876_799
    &&& nanos < 2_000_000_000
    &&& (nanos >= 1_000_000_000 ==> secs % 60 == 59)
}

/// What `DateTime::signed_duration_since(...).num_milliseconds()` gives for
/// the later instant against the earlier one, each given as (seconds,
/// nanoseconds).
pub uninterp spec fn chrono_elapsed_millis(
    earlier_secs: i64,
    earlier_nanos: u32,
    later_secs: i64,
    later_nanos: u32,
) -> i64;

/// Integer division rounded toward zero (`d > 0`).
pub open spec fn trunc_div(x: int, d: int) -> int {
    if x >= 0 {
        x / d
    } else {
        -((-x) / d)
    }
}

/// The instant as nanoseconds since the epoch (exact outside leap seconds).
pub open spec fn epoch_nanos(secs: i64, nanos: u32) -> int {
    secs * 1_000_000_000 + nanos
}

/// An instant that chrono can represent as a `DateTime<Utc>`.
#[derive(Clone, Copy, Debug, PartialEq, Eq, Structural)]
pub struct Timestamp {
    secs: i64,
    nanos: u32,
}

impl View for Timestamp {
    type V = (i64, u32);

    closed spec fn view(&self) -> (i64, u32) {
        (self.secs, self.nanos)
    }
}

/// Outside a leap second the nanosecond part stays under one second.
pub open spec fn outside_leap_second(t: (i64, u32)) -> bool {
    t.1 < 1_000_000_000
}

/// `chrono::DateTime::<Utc>::from_timestamp(secs, nanos)`, told apart by
/// whether it gives an instant. Claimed: it gives one exactly on the range
/// that its source checks (the date range of `NaiveDate` and
/// `NaiveTime::from_num_seconds_from_midnight_opt`'s nanosecond rule).
#[verifier::external_body]
fn chrono_from_timestamp_is_some(secs: i64, nanos: u32) -> (r: bool)
    ensures
        r == chrono_represents(secs, nanos),
{
    DateTime::<Utc>::from_timestamp(secs, nanos).is_some()
}

/// `chrono::DateTime::signed_duration_since`, later instant against earlier
/// one, both built by `from_timestamp` and the difference read back with
/// `TimeDelta::num_milliseconds`. Claimed: the result is the named function
/// of the four plain values, and outside leap seconds it is the exact
/// difference in nanoseconds divided by a million, rounded toward zero
/// (chrono normalises the difference to whole seconds plus nanoseconds in
/// `0..1e9` and `num_milliseconds` truncates toward zero). Inside a leap
/// second nothing more is stated.
#[verifier::external_body]
fn chrono_millis_between(earlier: &Timestamp, later: &Timestamp) -> (r: i64)
    requires
        chrono_represents(earlier.secs, earlier.nanos),
        chrono_represents(later.secs, later.nanos),
    ensures
        r == chrono_elapsed_millis(earlier.secs, earlier.nanos, later.secs, later.nanos),
        earlier.nanos < 1_000_000_000 && later.nanos < 1_000_000_000 ==> r == trunc_div(
            epoch_nanos(later.secs, later.nanos) - epoch_nanos(earlier.secs, earlier.nanos),
            1_000_000,
        ),
{
    let e = DateTime::<Utc>::from_timestamp(earlier.secs, earlier.nanos).unwrap();
    let l = DateTime::<Utc>::from_timestamp(later.secs, later.nanos).unwrap();
    l.signed_duration_since(e).num_milliseconds()
}

impl Timestamp {
    #[verifier::type_invariant]
    spec fn representable(self) -> bool {
        chrono_represents(self.secs, self.nanos)
    }

    /// The instant `secs` seconds and `nanos` nanoseconds after the epoch,
    /// when chrono can represent it.
    pub fn from_unix(secs: i64, nanos: u32) -> (r: Option<Timestamp>)
        ensures
            r is Some <==> chrono_represents(secs, nanos),
            r matches Some(t) ==> t@ == (secs, nanos),
    {
        if chrono_from_timestamp_is_some(secs, nanos) {
            Some(Timestamp { secs, nanos })
        } else {
            None
        }
    }

    /// Whole seconds since the epoch.
    pub fn unix_secs(&self) -> (r: i64)
        ensures
            r == self@.0,
    {
        self.secs
    }

    /// Nanoseconds past the whole second.
    pub fn subsec_nanos(&self) -> (r: u32)
        ensures
            r == self@.1,
    {
        self.nanos
    }

    /// Milliseconds from `earlier` to `self`, as chrono counts them.
    pub fn millis_since(&self, earlier: &Timestamp) -> (r: i64)
        ensures
            r == chrono_elapsed_millis(earlier@.0, earlier@.1, self@.0, self@.1),
            outside_leap_second(earlier@) && outside_leap_second(self@) ==> r == trunc_div(
                epoch_nanos(self@.0, self@.1) - epoch_nanos(earlier@.0, earlier@.1),
                1_000_000,
            ),
    {
        proof {
            use_type_invariant(self);
            use_type_invariant(earlier);
        }
        chrono_millis_between(earlier, self)
    }

    /// Two optional instants are the same (both absent, or equal instants).
    pub fn same_optional(a: &Option<Timestamp>, b: &Option<Timestamp>) -> (r: bool)
        ensures
            r == (*a == *b),
    {
        match (a, b) {
            (None, None) => true,
            (Some(x), Some(y)) => x.secs == y.secs && x.nanos == y.nanos,
            _ => false,
        }
    }
}

} // verus!
