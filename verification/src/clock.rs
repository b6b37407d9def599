//! Points in time, and how long ago they were.

use crate::number::{
    digit_value, is_digit, is_row, law_decimal_states_the_number, row_value,
};
use crate::text::{decimal, decimal_of, digit_char};
use vstd::prelude::*;

verus! {

/// A date: year, month and day.
pub const DATE_PATTERN: &'static str = "%Y-%m-%d";

/// A date and the time of the day, in UTC.
pub const MOMENT_PATTERN: &'static str = "%Y-%m-%d %H:%M:%S UTC";

/// A point in time: seconds since the beginning of 1970 in UTC, and nanoseconds, which
/// run past one thousand million in a leap second.
#[derive(Clone, Copy, Debug)]
pub struct Timestamp {
    seconds: i64,
    nanos: u32,
}

/// What a point in time is.
pub struct Moment {
    pub seconds: int,
    pub nanos: int,
}

/// The years are those that the calendar covers, and only the last second of a minute
/// can be followed by a leap second.
pub open spec fn in_range(seconds: int, nanos: int) -> bool {
    &&& -8_334_601_228_800 <= seconds <= 8_210_266_876_799
    &&& 0 <= nanos < 2_000_000_000
    &&& nanos >= 1_000_000_000 ==> seconds % 60 == 59
}

impl View for Timestamp {
    type V = Moment;

    closed spec fn view(&self) -> Moment {
        Moment { seconds: self.seconds as int, nanos: self.nanos as int }
    }
}

impl Moment {
    /// The seconds since midnight.
    pub open spec fn second_of_day(self) -> int {
        self.seconds % 86_400
    }

    /// The days since the beginning of 1970.
    pub open spec fn day(self) -> int {
        self.seconds / 86_400
    }

    /// The moment lies in a leap second.
    pub open spec fn leaps(self) -> bool {
        self.nanos >= 1_000_000_000
    }
}

impl Timestamp {
    #[verifier::type_invariant]
    spec fn covered(self) -> bool {
        in_range(self.seconds as int, self.nanos as int)
    }

    /// The point in time with these seconds and nanoseconds, where there is one.
    pub fn new(seconds: i64, nanos: u32) -> (time: Option<Timestamp>)
        ensures
            match time {
                Some(time) => in_range(seconds as int, nanos as int) && time@ == (Moment {
                    seconds: seconds as int,
                    nanos: nanos as int,
                }),
                None => !in_range(seconds as int, nanos as int),
            },
    {
        if seconds < -8_334_601_228_800 || seconds > 8_210_266_876_799 || nanos >= 2_000_000_000 {
            return None;
        }
        if nanos >= 1_000_000_000 {
            let shifted: u64 = (seconds + 8_334_601_228_800) as u64;
            assert(shifted % 60 == seconds as int % 60);
            if shifted % 60 != 59 {
                return None;
            }
        }
        Some(Timestamp { seconds, nanos })
    }
}

/// The leap second that counts between two times of the day, towards the later one.
pub open spec fn leap_between(now: Moment, before: Moment) -> int {
    if now.second_of_day() > before.second_of_day() && before.leaps() {
        1
    } else if now.second_of_day() < before.second_of_day() && now.leaps() {
        -1
    } else {
        0
    }
}

/// The nanoseconds from `before` to `now`.
pub open spec fn nanos_between(now: Moment, before: Moment) -> int {
    (now.seconds - before.seconds + leap_between(now, before)) * 1_000_000_000 + (now.nanos
        - before.nanos)
}

/// The whole seconds from `before` to `now`.
pub open spec fn elapsed(now: Moment, before: Moment) -> int {
    let nanos = nanos_between(now, before);
    if nanos >= 0 {
        nanos / 1_000_000_000
    } else {
        -(-nanos / 1_000_000_000)
    }
}

/// The year has a leap day.
pub open spec fn is_leap_year(year: int) -> bool {
    year % 4 == 0 && (year % 100 != 0 || year % 400 == 0)
}

/// How many days a month has.
pub open spec fn days_in_month(year: int, month: int) -> int {
    if month == 2 {
        if is_leap_year(year) {
            29
        } else {
            28
        }
    } else if month == 4 || month == 6 || month == 9 || month == 11 {
        30
    } else {
        31
    }
}

/// The days from the beginning of the year to the beginning of the month.
pub open spec fn days_before_month(year: int, month: int) -> int
    decreases month,
{
    if month <= 1 {
        0
    } else {
        days_before_month(year, month - 1) + days_in_month(year, month - 1)
    }
}

/// The days from the beginning of 1970 to the beginning of the year.
pub open spec fn days_before_year(year: int) -> int {
    365 * (year - 1970) + leap_days_before(year) - leap_days_before(1970)
}

/// How many leap days the years from one on hold before this year; negative for the
/// years before.
pub open spec fn leap_days_before(year: int) -> int {
    (year - 1) / 4 - (year - 1) / 100 + (year - 1) / 400
}

/// A day of the Gregorian calendar.
pub struct Date {
    pub year: int,
    pub month: int,
    pub day: int,
}

/// `date` is the date of the day that lies `day` days after the first of January 1970.
pub open spec fn is_date_of(date: Date, day: int) -> bool {
    &&& 1 <= date.month <= 12
    &&& 1 <= date.day <= days_in_month(date.year, date.month)
    &&& day == days_before_year(date.year) + days_before_month(date.year, date.month) + date.day - 1
}

/// A number in two digits.
pub open spec fn two_digits(n: int) -> Seq<char> {
    seq![digit_char((n / 10) as nat), digit_char((n % 10) as nat)]
}

/// A year in four digits; one that does not fit gets a sign.
pub open spec fn year_text(year: int) -> Seq<char> {
    if 0 <= year <= 9999 {
        two_digits(year / 100) + two_digits(year % 100)
    } else if -9999 <= year < 0 {
        "-"@ + two_digits(-year / 100) + two_digits(-year % 100)
    } else if year < 0 {
        "-"@ + decimal((-year) as nat)
    } else {
        "+"@ + decimal(year as nat)
    }
}

/// The date of a moment.
pub open spec fn date_text(moment: Moment) -> Seq<char> {
    let date = choose|date: Date| is_date_of(date, moment.day());
    year_text(date.year) + "-"@ + two_digits(date.month) + "-"@ + two_digits(date.day)
}

/// The date and the time of the day of a moment.
pub open spec fn moment_text(moment: Moment) -> Seq<char> {
    let time = moment.second_of_day();
    let second = if moment.leaps() {
        time % 60 + 1
    } else {
        time % 60
    };
    date_text(moment) + " "@ + two_digits(time / 3600) + ":"@ + two_digits(time / 60 % 60) + ":"@
        + two_digits(second) + " UTC"@
}

/// The seconds and nanoseconds of the moment that a text in the format of RFC 3339 states,
/// as the `chrono` crate reads it.
pub uninterp spec fn stated_moment(text: Seq<char>) -> Option<(int, int)>;

/// Reads a text with `DateTime::parse_from_rfc3339` and returns the result of its
/// `timestamp` and `timestamp_subsec_nanos`.
///
/// It is claimed that the outcome depends on the text alone, and that what is read is
/// a moment that the calendar covers.
#[verifier::external_body]
fn parse_rfc3339(text: &str) -> (moment: Option<(i64, u32)>)
    ensures
        match moment {
            Some((seconds, nanos)) => stated_moment(text@) == Some((seconds as int, nanos as int))
                && in_range(seconds as int, nanos as int),
            None => stated_moment(text@) is None,
        },
{
    let time = chrono::DateTime::parse_from_rfc3339(text).ok()?;
    Some((time.timestamp(), time.timestamp_subsec_nanos()))
}

/// The whole seconds between two moments: `DateTime::signed_duration_since`, and
/// `TimeDelta::num_seconds` of what it returns.
///
/// It is claimed that this is the difference, cut off towards zero, with a leap second
/// counted where one of the two moments lies in one and its time of the day is the earlier.
#[verifier::external_body]
fn seconds_between(now: (i64, u32), before: (i64, u32)) -> (seconds: i64)
    requires
        in_range(now.0 as int, now.1 as int),
        in_range(before.0 as int, before.1 as int),
    ensures
        seconds == elapsed(
            Moment { seconds: now.0 as int, nanos: now.1 as int },
            Moment { seconds: before.0 as int, nanos: before.1 as int },
        ),
{
    let now = chrono::DateTime::from_timestamp(now.0, now.1).unwrap_or_default();
    let before = chrono::DateTime::from_timestamp(before.0, before.1).unwrap_or_default();
    now.signed_duration_since(before).num_seconds()
}

/// Writes a moment after a pattern, with `DateTime::format`.
///
/// Of the two patterns it is claimed that they give the date in the Gregorian calendar,
/// and the date with the time of the day.
#[verifier::external_body]
fn formatted(moment: (i64, u32), pattern: &str) -> (text: String)
    requires
        in_range(moment.0 as int, moment.1 as int),
        pattern@ == DATE_PATTERN@ || pattern@ == MOMENT_PATTERN@,
    ensures
        pattern@ == DATE_PATTERN@ ==> text@ == date_text(
            Moment { seconds: moment.0 as int, nanos: moment.1 as int },
        ),
        pattern@ == MOMENT_PATTERN@ ==> text@ == moment_text(
            Moment { seconds: moment.0 as int, nanos: moment.1 as int },
        ),
{
    let moment = chrono::DateTime::from_timestamp(moment.0, moment.1).unwrap_or_default();
    moment.format(pattern).to_string()
}

/// How long before `now` a moment was; its date, where it was a month ago or more.
pub open spec fn relative_text(moment: Moment, now: Moment) -> Seq<char> {
    let seconds = elapsed(now, moment);
    if seconds < 60 {
        "just now"@
    } else if seconds < 60 * 60 {
        decimal((seconds / 60) as nat) + "m ago"@
    } else if seconds < 24 * 3600 {
        decimal((seconds / 3600) as nat) + "h ago"@
    } else if seconds < 30 * 86_400 {
        decimal((seconds / 86_400) as nat) + "d ago"@
    } else {
        date_text(moment)
    }
}

/// How long ago the moment was that a text states; the text itself, where it states none.
pub open spec fn issue_time_text(text: Seq<char>, now: Moment) -> Seq<char> {
    match stated_moment(text) {
        Some((seconds, nanos)) => relative_text(Moment { seconds, nanos }, now),
        None => text,
    }
}

fn ago(count: i64, unit: &str) -> (text: String)
    requires
        count >= 0,
    ensures
        text@ == decimal(count as nat) + unit@,
{
    let mut text = decimal_of(count as u64);
    text.append(unit);
    text
}

/// How long ago a moment was.
pub fn format_relative_timestamp(timestamp: Timestamp, now: Timestamp) -> (text: String)
    ensures
        text@ == relative_text(timestamp@, now@),
{
    proof {
        use_type_invariant(&timestamp);
        use_type_invariant(&now);
    }
    let seconds: i64 = seconds_between(
        (now.seconds, now.nanos),
        (timestamp.seconds, timestamp.nanos),
    );
    if seconds < 60 {
        "just now".to_owned()
    } else if seconds / 60 < 60 {
        ago(seconds / 60, "m ago")
    } else if seconds / 3600 < 24 {
        ago(seconds / 3600, "h ago")
    } else if seconds / 86_400 < 30 {
        ago(seconds / 86_400, "d ago")
    } else {
        formatted((timestamp.seconds, timestamp.nanos), DATE_PATTERN)
    }
}

/// How long ago the moment was that a text states.
pub fn format_timestamp(value: &str, now: Timestamp) -> (text: String)
    ensures
        text@ == issue_time_text(value@, now@),
{
    match parse_rfc3339(value) {
        None => value.to_owned(),
        Some((seconds, nanos)) => format_relative_timestamp(Timestamp { seconds, nanos }, now),
    }
}

/// The date and the time of the day of a moment.
pub fn format_moment(timestamp: Timestamp) -> (text: String)
    ensures
        text@ == moment_text(timestamp@),
{
    proof {
        use_type_invariant(&timestamp);
    }
    formatted((timestamp.seconds, timestamp.nanos), MOMENT_PATTERN)
}

/// From one moment to another it is as long as back, with the other sign; no time
/// passes from a moment to itself.
pub proof fn law_elapsed_is_antisymmetric(a: Moment, b: Moment)
    ensures
        elapsed(a, b) == -elapsed(b, a),
        elapsed(a, a) == 0,
{
    assert(nanos_between(a, b) == -nanos_between(b, a));
    assert(nanos_between(a, a) == 0);
}

proof fn lemma_year_length(year: int)
    ensures
        days_before_year(year + 1) == days_before_year(year) + 365 + if is_leap_year(year) {
            1int
        } else {
            0
        },
        days_before_month(year, 13) == days_before_year(year + 1) - days_before_year(year),
{
    assert(year / 4 - (year - 1) / 4 == if year % 4 == 0 {
        1int
    } else {
        0
    });
    assert(year / 100 - (year - 1) / 100 == if year % 100 == 0 {
        1int
    } else {
        0
    });
    assert(year / 400 - (year - 1) / 400 == if year % 400 == 0 {
        1int
    } else {
        0
    });
    reveal_with_fuel(days_before_month, 13);
}

proof fn lemma_years_grow(a: int, b: int)
    requires
        a <= b,
    ensures
        days_before_year(a) + 365 * (b - a) <= days_before_year(b),
    decreases b - a,
{
    if a < b {
        lemma_years_grow(a, b - 1);
        lemma_year_length(b - 1);
    }
}

proof fn lemma_months_grow(year: int, a: int, b: int)
    requires
        1 <= a <= b,
    ensures
        days_before_month(year, a) <= days_before_month(year, b),
    decreases b - a,
{
    if a < b {
        lemma_months_grow(year, a, b - 1);
    }
}

proof fn lemma_date_in_year(date: Date, day: int)
    requires
        is_date_of(date, day),
    ensures
        days_before_year(date.year) <= day < days_before_year(date.year + 1),
{
    lemma_year_length(date.year);
    lemma_months_grow(date.year, 1, date.month);
    lemma_months_grow(date.year, date.month + 1, 13);
}

proof fn lemma_year_of(day: int, year: int) -> (found: int)
    ensures
        days_before_year(found) <= day < days_before_year(found + 1),
    decreases
            if day < days_before_year(year) {
                days_before_year(year) - day
            } else {
                day - days_before_year(year)
            },
{
    lemma_year_length(year);
    lemma_year_length(year - 1);
    if day < days_before_year(year) {
        if day >= days_before_year(year - 1) {
            year - 1
        } else {
            lemma_year_of(day, year - 1)
        }
    } else if day >= days_before_year(year + 1) {
        lemma_year_of(day, year + 1)
    } else {
        year
    }
}

proof fn lemma_month_of(year: int, rest: int, month: int) -> (found: int)
    requires
        1 <= month <= 12,
        days_before_month(year, month) <= rest < days_before_month(year, 13),
    ensures
        1 <= found <= 12,
        days_before_month(year, found) <= rest < days_before_month(year, found + 1),
    decreases 12 - month,
{
    if month == 12 || rest < days_before_month(year, month + 1) {
        month
    } else {
        lemma_month_of(year, rest, month + 1)
    }
}

/// Every day has one date, and only one.
pub proof fn law_every_day_has_one_date(day: int, a: Date, b: Date)
    ensures
        exists|date: Date| is_date_of(date, day),
        is_date_of(a, day) && is_date_of(b, day) ==> a == b,
{
    let year = lemma_year_of(day, 1970);
    lemma_year_length(year);
    let rest = day - days_before_year(year);
    assert(days_before_month(year, 1) == 0);
    let month = lemma_month_of(year, rest, 1);
    let date = Date { year, month, day: rest - days_before_month(year, month) + 1 };
    assert(is_date_of(date, day));
    if is_date_of(a, day) && is_date_of(b, day) {
        lemma_date_in_year(a, day);
        lemma_date_in_year(b, day);
        if a.year < b.year {
            lemma_years_grow(a.year + 1, b.year);
        } else if b.year < a.year {
            lemma_years_grow(b.year + 1, a.year);
        }
        if a.month < b.month {
            lemma_months_grow(a.year, a.month + 1, b.month);
        } else if b.month < a.month {
            lemma_months_grow(a.year, b.month + 1, a.month);
        }
    }
}

/// The date that is shown of a moment is the date of its day.
pub proof fn law_shown_date_is_date_of_day(moment: Moment, date: Date)
    requires
        is_date_of(date, moment.day()),
    ensures
        date_text(moment) == year_text(date.year) + "-"@ + two_digits(date.month) + "-"@
            + two_digits(date.day),
{
    let shown = choose|date: Date| is_date_of(date, moment.day());
    law_every_day_has_one_date(moment.day(), date, shown);
}

/// The moments are those of the calendar years from 262143 before the year zero up to
/// 262142, and those of a leap second, which follows the last second of a minute.
pub proof fn law_moments_are_of_the_calendar(seconds: int, nanos: int, date: Date)
    requires
        is_date_of(date, seconds / 86_400),
    ensures
        in_range(seconds, nanos) <==> -262_143 <= date.year <= 262_142 && 0 <= nanos && (nanos
            < 1_000_000_000 || (nanos < 2_000_000_000 && seconds % 60 == 59)),
{
    let day = seconds / 86_400;
    lemma_date_in_year(date, day);
    assert(days_before_year(-262_143) * 86_400 == -8_334_601_228_800);
    assert(days_before_year(262_143) * 86_400 == 8_210_266_876_800);
    if date.year < -262_143 {
        lemma_years_grow(date.year + 1, -262_143);
    } else {
        lemma_years_grow(-262_143, date.year);
    }
    if date.year > 262_142 {
        lemma_years_grow(262_143, date.year);
    } else {
        lemma_years_grow(date.year + 1, 262_143);
    }
}

/// Without leap seconds, time passes as it does on a clock: whole seconds and nanoseconds
/// later it is as much more, and it is the same between two moments that are both later by
/// the same time.
pub proof fn law_time_passes_evenly(now: Moment, before: Moment, seconds: int)
    requires
        0 <= now.nanos < 1_000_000_000,
        0 <= before.nanos < 1_000_000_000,
    ensures
        elapsed(
            Moment { seconds: now.seconds + seconds, nanos: now.nanos },
            Moment { seconds: before.seconds + seconds, nanos: before.nanos },
        ) == elapsed(now, before),
        now.seconds >= before.seconds && now.nanos >= before.nanos ==> elapsed(now, before)
            == now.seconds - before.seconds,
        now.seconds > before.seconds && now.nanos < before.nanos ==> elapsed(now, before)
            == now.seconds - before.seconds - 1,
{
}

/// A leap second counts as one second more between a moment in it and a later time of a day,
/// and as one less the other way round.
pub proof fn law_leap_second_counts(now: Moment, leap: Moment, plain: Moment)
    requires
        leap.nanos >= 1_000_000_000,
        plain.seconds == leap.seconds,
        plain.nanos == leap.nanos - 1_000_000_000,
        0 <= now.nanos < 1_000_000_000,
        0 <= plain.nanos < 1_000_000_000,
    ensures
        now.seconds % 86_400 > leap.seconds % 86_400 ==> nanos_between(now, leap) == nanos_between(
            now,
            plain,
        ),
        now.seconds % 86_400 <= leap.seconds % 86_400 ==> nanos_between(now, leap)
            == nanos_between(now, plain) - 1_000_000_000,
{
}

/// How long ago a moment was is told in the greatest unit that fits: in minutes below an
/// hour, in hours below a day, in days below thirty, each rounded down; before that it is
/// just now, as everything to come is, and after it the date is told.
pub proof fn law_age_is_told_in_its_unit(moment: Moment, now: Moment, count: int)
    ensures
        elapsed(now, moment) < 60 ==> relative_text(moment, now) == "just now"@,
        1 <= count < 60 && 60 * count <= elapsed(now, moment) < 60 * (count + 1) ==> relative_text(
            moment,
            now,
        ) == decimal(count as nat) + "m ago"@,
        1 <= count < 24 && 3_600 * count <= elapsed(now, moment) < 3_600 * (count + 1)
            ==> relative_text(moment, now) == decimal(count as nat) + "h ago"@,
        1 <= count < 30 && 86_400 * count <= elapsed(now, moment) < 86_400 * (count + 1)
            ==> relative_text(moment, now) == decimal(count as nat) + "d ago"@,
        elapsed(now, moment) >= 2_592_000 ==> relative_text(moment, now) == date_text(moment),
{
    let seconds = elapsed(now, moment);
    if 1 <= count < 60 && 60 * count <= seconds < 60 * (count + 1) {
        assert(seconds / 60 == count);
    }
    if 1 <= count < 24 && 3_600 * count <= seconds < 3_600 * (count + 1) {
        assert(seconds / 3_600 == count);
    }
    if 1 <= count < 30 && 86_400 * count <= seconds < 86_400 * (count + 1) {
        assert(seconds / 86_400 == count);
    }
}

/// A text that states a moment is shown as the age of that moment, and every other text as
/// it is.
pub proof fn law_issue_time_is_shown(text: Seq<char>, now: Moment)
    ensures
        stated_moment(text) is None ==> issue_time_text(text, now) == text,
        stated_moment(text) matches Some((seconds, nanos)) ==> issue_time_text(text, now)
            == relative_text(Moment { seconds, nanos }, now),
{
}

/// The day after a date is the next day of the month, or the first of the next month, or the
/// first day of the next year; and the first of January 1970 is where the days are counted
/// from. February has a leap day every four years, but for those centuries that four hundred
/// does not divide.
pub proof fn law_day_after_day(day: int, today: Date, tomorrow: Date)
    requires
        is_date_of(today, day),
        is_date_of(tomorrow, day + 1),
    ensures
        tomorrow.year == today.year && tomorrow.month == today.month && tomorrow.day == today.day
            + 1 || tomorrow.year == today.year && tomorrow.month == today.month + 1 && tomorrow.day
            == 1 || tomorrow.year == today.year + 1 && today.month == 12 && today.day == 31
            && tomorrow.month == 1 && tomorrow.day == 1,
        is_date_of((Date { year: 1970, month: 1, day: 1 }), 0),
        days_in_month(today.year, today.month) == (if today.month == 2 {
            if today.year % 400 == 0 || (today.year % 4 == 0 && today.year % 100 != 0) {
                29
            } else {
                28int
            }
        } else if seq![4int, 6, 9, 11].contains(today.month) {
            30
        } else {
            31
        }),
{
    lemma_year_length(today.year);
    let same = Date { day: today.day + 1, ..today };
    let month = Date { month: today.month + 1, day: 1, ..today };
    let year = Date { year: today.year + 1, month: 1, day: 1 };
    assert(days_before_month(today.year + 1, 1) == 0);
    assert(days_before_month(1970, 1) == 0);
    let long = days_in_month(today.year, today.month);
    assert(days_before_month(today.year, today.month + 1) == days_before_month(
        today.year,
        today.month,
    ) + long);
    if today.day < long {
        assert(is_date_of(same, day + 1));
        law_every_day_has_one_date(day + 1, same, tomorrow);
    } else if today.month < 12 {
        assert(is_date_of(month, day + 1));
        law_every_day_has_one_date(day + 1, month, tomorrow);
    } else {
        assert(is_date_of(year, day + 1));
        law_every_day_has_one_date(day + 1, year, tomorrow);
    }
    let short = seq![4int, 6, 9, 11];
    assert(short[0] == 4 && short[1] == 6 && short[2] == 9 && short[3] == 11);
}

/// Two digits make up the number that they stand for, and a year is written with four digits
/// or more, with a sign just where it does not fit in four.
pub proof fn law_numbers_in_dates(n: int, year: int)
    requires
        0 <= n < 100,
    ensures
        two_digits(n).len() == 2,
        is_row(two_digits(n)),
        row_value(two_digits(n)) == n,
        0 <= year <= 9999 ==> year_text(year).len() == 4 && is_row(year_text(year)) && row_value(
            year_text(year),
        ) == year,
        year < 0 ==> year_text(year).len() >= 5 && year_text(year)[0] == '-' && is_row(
            year_text(year).skip(1),
        ) && row_value(year_text(year).skip(1)) == -year,
        year > 9999 ==> year_text(year).len() >= 5 && year_text(year)[0] == '+' && is_row(
            year_text(year).skip(1),
        ) && row_value(year_text(year).skip(1)) == year,
{
    reveal_strlit("-");
    reveal_strlit("+");
    lemma_two_digits(n);
    if -9999 <= year <= 9999 {
        let size = if year < 0 {
            -year
        } else {
            year
        };
        lemma_two_digits(size / 100);
        lemma_two_digits(size % 100);
        let digits = two_digits(size / 100) + two_digits(size % 100);
        lemma_four_digits(size);
        if year < 0 {
            assert(year_text(year).skip(1) =~= digits);
        }
    } else if year < 0 {
        law_decimal_states_the_number((-year) as nat);
        lemma_long_decimal((-year) as nat);
        assert(year_text(year).skip(1) =~= decimal((-year) as nat));
    } else {
        law_decimal_states_the_number(year as nat);
        lemma_long_decimal(year as nat);
        assert(year_text(year).skip(1) =~= decimal(year as nat));
    }
}

proof fn lemma_two_digits(n: int)
    requires
        0 <= n < 100,
    ensures
        is_row(two_digits(n)),
        row_value(two_digits(n)) == n,
{
    let s = two_digits(n);
    assert(s.drop_last() =~= seq![s[0]]);
    assert(s.drop_last().drop_last() =~= Seq::<char>::empty());
    reveal_with_fuel(row_value, 3);
    assert(row_value(s.drop_last().drop_last()) == 0);
}

proof fn lemma_four_digits(n: int)
    requires
        0 <= n <= 9999,
    ensures
        (two_digits(n / 100) + two_digits(n % 100)).len() == 4,
        is_row(two_digits(n / 100) + two_digits(n % 100)),
        row_value(two_digits(n / 100) + two_digits(n % 100)) == n,
{
    let (a, b) = (two_digits(n / 100), two_digits(n % 100));
    lemma_two_digits(n / 100);
    lemma_two_digits(n % 100);
    let s = a + b;
    assert(s.drop_last() =~= a.push(b[0]));
    assert(a.push(b[0]).drop_last() =~= a);
    assert(row_value(s) == 10 * row_value(s.drop_last()) + digit_value(b[1]));
    assert(row_value(a.push(b[0])) == 10 * row_value(a) + digit_value(b[0]));
    assert(b.drop_last() =~= seq![b[0]]);
    assert(seq![b[0]].drop_last() =~= Seq::<char>::empty());
    assert(row_value(Seq::<char>::empty()) == 0);
    assert(row_value(seq![b[0]]) == digit_value(b[0]));
    assert(row_value(b) == 10 * digit_value(b[0]) + digit_value(b[1]));
    assert forall|i: int| 0 <= i < 4 implies is_digit(#[trigger] s[i]) by {
        if i < 2 {
            assert(s[i] == a[i]);
        } else {
            assert(s[i] == b[i - 2]);
        }
    }
}

proof fn lemma_long_decimal(n: nat)
    requires
        n > 9999,
    ensures
        decimal(n).len() >= 4,
{
    reveal_with_fuel(decimal, 5);
}

/// A moment is shown with its date, and after it the hours, minutes and seconds of its time
/// of the day, which are sixty in a leap second.
pub proof fn law_shown_time_is_the_time_of_day(moment: Moment, hour: int, minute: int, second: int)
    requires
        0 <= hour < 24,
        0 <= minute < 60,
        0 <= second < 60,
        moment.seconds % 86_400 == 3_600 * hour + 60 * minute + second,
    ensures
        moment.nanos < 1_000_000_000 ==> moment_text(moment) == date_text(moment) + " "@
            + two_digits(hour) + ":"@ + two_digits(minute) + ":"@ + two_digits(second) + " UTC"@,
        moment.nanos >= 1_000_000_000 ==> moment_text(moment) == date_text(moment) + " "@
            + two_digits(hour) + ":"@ + two_digits(minute) + ":"@ + two_digits(second + 1)
            + " UTC"@,
{
    let time = moment.seconds % 86_400;
    assert(time / 3_600 == hour);
    assert(time / 60 == 60 * hour + minute);
    assert(time / 60 % 60 == minute);
    assert(time % 60 == second);
}

} // verus!
