use chrono::{DateTime, Utc};
use rinha_leaderboard::clock::{
    format_moment, format_relative_timestamp, format_timestamp, Timestamp,
};

fn at(seconds: i64, nanos: u32) -> Timestamp {
    Timestamp::new(seconds, nanos).unwrap()
}

fn relative(timestamp: DateTime<Utc>, now: DateTime<Utc>) -> String {
    let delta = now.signed_duration_since(timestamp);
    if delta.num_seconds() < 60 {
        "just now".to_string()
    } else if delta.num_minutes() < 60 {
        format!("{}m ago", delta.num_minutes())
    } else if delta.num_hours() < 24 {
        format!("{}h ago", delta.num_hours())
    } else if delta.num_days() < 30 {
        format!("{}d ago", delta.num_days())
    } else {
        timestamp.format("%Y-%m-%d").to_string()
    }
}

#[test]
fn moments_are_those_of_the_calendar() {
    let edges = [
        i64::MIN,
        -8_334_601_228_801,
        -8_334_601_228_800,
        -8_334_601_228_799,
        -61,
        -60,
        -1,
        0,
        58,
        59,
        60,
        119,
        8_210_266_876_798,
        8_210_266_876_799,
        8_210_266_876_800,
        i64::MAX,
    ];
    for seconds in edges {
        for nanos in [0, 999_999_999, 1_000_000_000, 1_999_999_999, 2_000_000_000, u32::MAX] {
            assert_eq!(
                Timestamp::new(seconds, nanos).is_some(),
                DateTime::from_timestamp(seconds, nanos).is_some(),
                "{seconds} {nanos}"
            );
        }
    }
}

#[test]
fn elapsed_time_is_told() {
    let now = 1_776_854_549;
    let ago = |seconds: i64| format_relative_timestamp(at(now - seconds, 0), at(now, 0));
    assert_eq!(ago(0), "just now");
    assert_eq!(ago(-5000), "just now");
    assert_eq!(ago(59), "just now");
    assert_eq!(ago(60), "1m ago");
    assert_eq!(ago(3599), "59m ago");
    assert_eq!(ago(3600), "1h ago");
    assert_eq!(ago(86_399), "23h ago");
    assert_eq!(ago(86_400), "1d ago");
    assert_eq!(ago(30 * 86_400 - 1), "29d ago");
    assert_eq!(ago(30 * 86_400), "2026-03-23");
}

#[test]
fn time_does_not_pass_backwards() {
    let (early, late) = (at(1_000, 5), at(5_000, 0));
    assert_eq!(format_relative_timestamp(early, late), "1h ago");
    assert_eq!(format_relative_timestamp(late, early), "just now");
    assert_eq!(format_relative_timestamp(late, late), "just now");
}

#[test]
fn fractions_of_seconds_count() {
    assert_eq!(format_relative_timestamp(at(0, 1), at(60, 0)), "just now");
    assert_eq!(format_relative_timestamp(at(0, 0), at(60, 0)), "1m ago");
}

#[test]
fn leap_seconds_count() {
    let then = (59, 1_500_000_000);
    for now in [(118, 500_000_000), (119, 500_000_000), (119, 499_999_999), (86_400, 0)] {
        let expected = relative(
            DateTime::from_timestamp(then.0, then.1).unwrap(),
            DateTime::from_timestamp(now.0, now.1).unwrap(),
        );
        assert_eq!(
            format_relative_timestamp(at(then.0, then.1), at(now.0, now.1)),
            expected
        );
    }
    assert_eq!(format_moment(at(59, 1_000_000_000)), "1970-01-01 00:00:60 UTC");
}

#[test]
fn dates_are_those_of_the_calendar() {
    assert_eq!(format_moment(at(0, 0)), "1970-01-01 00:00:00 UTC");
    assert_eq!(format_moment(at(951_782_400, 0)), "2000-02-29 00:00:00 UTC");
    assert_eq!(format_moment(at(1_776_854_549, 0)), "2026-04-22 10:42:29 UTC");
    assert_eq!(format_moment(at(-1, 0)), "1969-12-31 23:59:59 UTC");
    assert_eq!(format_moment(at(253_402_300_800, 0)), "+10000-01-01 00:00:00 UTC");
    assert_eq!(format_moment(at(-62_167_219_200, 0)), "0000-01-01 00:00:00 UTC");
    assert_eq!(format_moment(at(-62_167_219_201, 0)), "-0001-12-31 23:59:59 UTC");
    assert_eq!(
        format_moment(at(-8_334_601_228_800, 0)),
        "-262143-01-01 00:00:00 UTC"
    );
    assert_eq!(
        format_moment(at(8_210_266_876_799, 0)),
        "+262142-12-31 23:59:59 UTC"
    );
}

/// The civil date of a day, counted by walking over the years and the months.
fn civil(day: i64) -> (i64, i64, i64) {
    let leap = |year: i64| year % 4 == 0 && (year % 100 != 0 || year % 400 == 0);
    let mut year = 1970;
    let mut rest = day;
    while rest < 0 {
        year -= 1;
        rest += if leap(year) { 366 } else { 365 };
    }
    while rest >= if leap(year) { 366 } else { 365 } {
        rest -= if leap(year) { 366 } else { 365 };
        year += 1;
    }
    let mut month = 1;
    loop {
        let length = match month {
            2 => 28 + leap(year) as i64,
            4 | 6 | 9 | 11 => 30,
            _ => 31,
        };
        if rest < length {
            return (year, month, rest + 1);
        }
        rest -= length;
        month += 1;
    }
}

#[test]
fn every_day_has_its_date() {
    for day in (-800_000..800_000).step_by(97) {
        let (year, month, date) = civil(day);
        let year = if (0..10_000).contains(&year) {
            format!("{year:04}")
        } else {
            format!("{year:+05}")
        };
        assert_eq!(
            format_moment(at(day * 86_400 + 3_723, 0)),
            format!("{year}-{month:02}-{date:02} 01:02:03 UTC")
        );
    }
}

#[test]
fn issue_times_are_read() {
    let now = at(1_776_854_549, 0);
    assert_eq!(format_timestamp("2026-04-22T10:42:29Z", now), "just now");
    assert_eq!(format_timestamp("2026-04-22T10:12:29Z", now), "30m ago");
    assert_eq!(format_timestamp("2026-04-22T05:42:29-03:00", now), "2h ago");
    assert_eq!(format_timestamp("2026-04-20 10:42:29.5+00:00", now), "1d ago");
    assert_eq!(format_timestamp("2025-12-31T23:59:59Z", now), "2025-12-31");
    assert_eq!(format_timestamp("2025-12-31T23:59:59-01:00", now), "2026-01-01");
    assert_eq!(format_timestamp("1990-12-31T23:59:60Z", now), "1990-12-31");
}

#[test]
fn what_states_no_time_is_shown_as_it_is() {
    let now = at(0, 0);
    for text in ["", "yesterday", "2026-04-22", "2026-13-01T00:00:00Z", "2026-04-22T10:42:29"] {
        assert_eq!(format_timestamp(text, now), text);
    }
}

#[test]
fn elapsed_time_agrees_with_the_calendar() {
    let mut state: u64 = 3;
    let mut next = || {
        state = state.wrapping_mul(6364136223846793005).wrapping_add(1442695040888963407);
        state >> 20
    };
    for _ in 0..3000 {
        let seconds = (next() % 400_000_000) as i64;
        let gap = (next() % 4_000_000) as i64 - 100;
        let (a, b) = (seconds, seconds + gap);
        let nanos = |seconds: i64, value: u64| {
            if seconds.rem_euclid(60) == 59 {
                (value % 2_000_000_000) as u32
            } else {
                (value % 1_000_000_000) as u32
            }
        };
        let (m, n) = (nanos(a, next()), nanos(b, next()));
        assert_eq!(
            format_relative_timestamp(at(a, m), at(b, n)),
            relative(
                DateTime::from_timestamp(a, m).unwrap(),
                DateTime::from_timestamp(b, n).unwrap()
            )
        );
    }
}
