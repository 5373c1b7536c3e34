use chrono::{DateTime, Duration};
use pgstatdiff::timestamp::Timestamp;

#[test]
fn from_unix_keeps_its_parts() {
    let t = Timestamp::from_unix(1_700_000_000, 123_456_789).unwrap();
    assert_eq!(t.unix_secs(), 1_700_000_000);
    assert_eq!(t.subsec_nanos(), 123_456_789);
}

#[test]
fn from_unix_refuses_what_chrono_refuses() {
    assert!(Timestamp::from_unix(0, 2_000_000_000).is_none());
    assert!(Timestamp::from_unix(0, 1_500_000_000).is_none());
    assert!(Timestamp::from_unix(59, 1_500_000_000).is_some());
    assert!(Timestamp::from_unix(i64::MAX, 0).is_none());
}

#[test]
fn millis_since_truncates_toward_zero() {
    let a = Timestamp::from_unix(100, 0).unwrap();
    let b = Timestamp::from_unix(101, 500_000_000).unwrap();
    assert_eq!(b.millis_since(&a), 1500);
    assert_eq!(a.millis_since(&b), -1500);
    let c = Timestamp::from_unix(100, 999_999).unwrap();
    assert_eq!(c.millis_since(&a), 0);
    assert_eq!(a.millis_since(&c), 0);
    let d = Timestamp::from_unix(99, 998_500_000).unwrap();
    assert_eq!(d.millis_since(&a), -1);
    assert_eq!(a.millis_since(&d), 1);
}

#[test]
fn millis_since_matches_chrono_subtraction() {
    let base = DateTime::from_timestamp(1_650_000_000, 250_000_000).unwrap();
    for ms in [-5_000i64, -1, 0, 1, 999, 86_400_000] {
        let later = base + Duration::milliseconds(ms);
        let a = Timestamp::from_unix(base.timestamp(), base.timestamp_subsec_nanos()).unwrap();
        let b = Timestamp::from_unix(later.timestamp(), later.timestamp_subsec_nanos()).unwrap();
        assert_eq!(b.millis_since(&a), (later - base).num_milliseconds());
        assert_eq!(b.millis_since(&a), ms);
    }
}

#[test]
fn same_optional_compares_instants() {
    let a = Timestamp::from_unix(5, 1).unwrap();
    let b = Timestamp::from_unix(5, 1).unwrap();
    let c = Timestamp::from_unix(5, 2).unwrap();
    assert!(Timestamp::same_optional(&Some(a), &Some(b)));
    assert!(!Timestamp::same_optional(&Some(a), &Some(c)));
    assert!(!Timestamp::same_optional(&Some(a), &None));
    assert!(Timestamp::same_optional(&None, &None));
}

#[test]
fn from_unix_accepts_exactly_chronos_date_range() {
    let first = -8_334_601_228_800i64;
    let last = 8_210_266_876_799i64;
    assert!(Timestamp::from_unix(first, 0).is_some());
    assert!(Timestamp::from_unix(first - 1, 999_999_999).is_none());
    assert!(Timestamp::from_unix(last, 999_999_999).is_some());
    assert!(Timestamp::from_unix(last + 1, 0).is_none());
    for (secs, nanos) in [(first, 0u32), (last, 0), (first - 1, 0), (last + 1, 0), (59, 1_999_999_999), (58, 1_000_000_000)] {
        assert_eq!(
            Timestamp::from_unix(secs, nanos).is_some(),
            DateTime::from_timestamp(secs, nanos).is_some()
        );
    }
}
