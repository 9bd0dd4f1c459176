use anyrouter_monitor::date::{days_in_month, is_valid_day_text, parse_day, prev_day, Date};
use anyrouter_monitor::store::{parse_updated_time, StateStore, Stamp};

fn d(y: u32, m: u32, day: u32) -> Date {
    Date { year: y, month: m, day }
}

fn stamp(date: Date, hour: u32) -> Stamp {
    Stamp { date, hour, text: "2025-10-08T12:00:00+08:00".to_string() }
}

#[test]
fn prev_day_within_month() {
    assert_eq!(prev_day(d(2025, 10, 8)), d(2025, 10, 7));
}

#[test]
fn prev_day_month_boundary() {
    assert_eq!(prev_day(d(2025, 10, 1)), d(2025, 9, 30));
    assert_eq!(prev_day(d(2025, 3, 1)), d(2025, 2, 28));
}

#[test]
fn prev_day_leap_year() {
    assert_eq!(prev_day(d(2024, 3, 1)), d(2024, 2, 29));
    assert_eq!(prev_day(d(2000, 3, 1)), d(2000, 2, 29));
    assert_eq!(prev_day(d(1900, 3, 1)), d(1900, 2, 28));
}

#[test]
fn prev_day_year_boundary() {
    assert_eq!(prev_day(d(2025, 1, 1)), d(2024, 12, 31));
}

#[test]
fn prev_day_agrees_with_chrono() {
    let cases = [
        (2025u32, 10u32, 8u32),
        (2025, 1, 1),
        (2024, 3, 1),
        (2100, 3, 1),
        (1999, 12, 31),
    ];
    for (y, m, dd) in cases {
        let ours = prev_day(d(y, m, dd));
        let theirs = chrono::NaiveDate::from_ymd_opt(y as i32, m, dd)
            .unwrap()
            .pred_opt()
            .unwrap();
        assert_eq!(ours.year as i32, chrono::Datelike::year(&theirs));
        assert_eq!(ours.month, chrono::Datelike::month(&theirs));
        assert_eq!(ours.day, chrono::Datelike::day(&theirs));
    }
}

#[test]
fn days_in_month_table() {
    assert_eq!(days_in_month(2025, 2), 28);
    assert_eq!(days_in_month(2024, 2), 29);
    assert_eq!(days_in_month(2025, 4), 30);
    assert_eq!(days_in_month(2025, 12), 31);
}

#[test]
fn day_text_shape_check() {
    assert!(is_valid_day_text("2025-10-08"));
    assert!(!is_valid_day_text("2025-10-8"));
    assert!(!is_valid_day_text("2025/10/08"));
    assert!(!is_valid_day_text("2025-10-08 "));
    assert!(!is_valid_day_text(""));
}

#[test]
fn parse_day_validates_the_calendar() {
    assert_eq!(parse_day("2025-10-08"), Some(d(2025, 10, 8)));
    assert_eq!(parse_day("2024-02-29"), Some(d(2024, 2, 29)));
    assert_eq!(parse_day("2025-02-29"), None);
    assert_eq!(parse_day("2025-02-30"), None);
    assert_eq!(parse_day("2025-13-01"), None);
    assert_eq!(parse_day("2025-00-01"), None);
    assert_eq!(parse_day("0000-01-01"), None);
}

#[test]
fn updated_time_both_forms() {
    assert_eq!(
        parse_updated_time("2025-10-08T06:30:00+08:00"),
        Some((6, d(2025, 10, 8)))
    );
    assert_eq!(
        parse_updated_time("2025-10-08T23:59:59"),
        Some((23, d(2025, 10, 8)))
    );
    assert_eq!(parse_updated_time("2025-10-08"), None);
    assert_eq!(parse_updated_time("not a time"), None);
    assert_eq!(parse_updated_time("2025-10-08T99:00:00"), None);
}

// Before the rollover hour the cycle day is yesterday's date; from the
// rollover hour on it is today's, for every rollover hour.
#[test]
fn cycle_day_policy_all_hours() {
    let today = d(2025, 10, 8);
    let yesterday = d(2025, 10, 7);
    for h in 0u32..24 {
        let (store, _) = StateStore::load(None, None, h).unwrap();
        for hour in 0u32..24 {
            let got = store.current_cycle_day(&stamp(today, hour));
            if hour < h {
                assert_eq!(got, yesterday);
            } else {
                assert_eq!(got, today);
            }
        }
    }
}

#[test]
fn cycle_day_rollover_across_month() {
    let (store, _) = StateStore::load(None, None, 8).unwrap();
    assert_eq!(store.current_cycle_day(&stamp(d(2025, 3, 1), 3)), d(2025, 2, 28));
}

// `should_force` is true exactly until the cycle is marked fulfilled,
// and again once the cycle day moves on.
#[test]
fn force_until_fulfilled() {
    let (mut store, _) = StateStore::load(None, None, 8).unwrap();
    let morning = stamp(d(2025, 10, 8), 9);
    assert!(store.should_force_web_query("alice", &morning));
    // Reading twice changes nothing.
    assert!(store.should_force_web_query("alice", &morning));
    store.mark_web_query_success("alice".to_string(), &morning);
    assert!(!store.should_force_web_query("alice", &morning));
    // A later reading inside the same cycle still holds.
    let evening = stamp(d(2025, 10, 8), 23);
    assert!(!store.should_force_web_query("alice", &evening));
    // The next calendar morning before the rollover hour is the same cycle.
    let next_early = stamp(d(2025, 10, 9), 5);
    assert!(!store.should_force_web_query("alice", &next_early));
    // From the rollover hour on it is a new cycle.
    let next_day = stamp(d(2025, 10, 9), 8);
    assert!(store.should_force_web_query("alice", &next_day));
    // Other accounts are untouched.
    assert!(store.should_force_web_query("bob", &morning));
}

#[test]
fn balance_updates_leave_force_alone() {
    let (mut store, _) = StateStore::load(None, None, 8).unwrap();
    let now = stamp(d(2025, 10, 8), 9);
    store.mark_web_query_success("alice".to_string(), &now);
    store.update_balance_cache("alice".to_string(), "$1.0", None, None, &now);
    assert!(!store.should_force_web_query("alice", &now));
    store.update_balance_cache("bob".to_string(), "$2.0", None, None, &now);
    assert!(store.should_force_web_query("bob", &now));
}

#[test]
fn rollover_hour_out_of_range_falls_back() {
    let (store, _) = StateStore::load(None, None, 99).unwrap();
    // The fallback rollover hour is eight.
    assert_eq!(store.current_cycle_day(&stamp(d(2025, 10, 8), 7)), d(2025, 10, 7));
    assert_eq!(store.current_cycle_day(&stamp(d(2025, 10, 8), 8)), d(2025, 10, 8));
}

#[test]
fn clock_reading_is_usable() {
    let s = anyrouter_monitor::store::now_stamp().expect("the clock reads in range");
    assert!(s.hour <= 23);
    assert!((1..=9999).contains(&s.date.year));
    assert!((1..=12).contains(&s.date.month));
    assert!((1..=31).contains(&s.date.day));
    // The rendered timestamp begins with the same date and hour.
    let parsed = parse_updated_time(&s.text).expect("RFC 3339 text");
    assert_eq!(parsed.0, s.hour);
    assert_eq!(parsed.1, s.date);
}
