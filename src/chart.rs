//! The watch-time series by day of the week, day of the month or month of
//! the year, in hundredths of an hour.

use vstd::prelude::*;
use chrono::Datelike;
use crate::records::{Chart, LibraryError};
use crate::text::str_eq;

verus! {

/// The date that `chrono::NaiveDate::parse_from_str` reads from `s` with
/// format `fmt`, as year, month and day.
pub uninterp spec fn parsed_date(s: Seq<char>, fmt: Seq<char>) -> Option<(i32, u32, u32)>;

/// The calendar date of the timestamp that
/// `chrono::NaiveDateTime::parse_from_str` reads from `s` with format `fmt`.
pub uninterp spec fn parsed_timestamp_date(s: Seq<char>, fmt: Seq<char>) -> Option<(i32, u32, u32)>;

/// The day of the week of a date, counted from Sunday as 0, as chrono gives it.
pub uninterp spec fn weekday_from_sunday(y: i32, m: u32, d: u32) -> Option<u32>;

/// The ISO week (year and week number) of a date, as chrono gives it.
pub uninterp spec fn iso_week_of(y: i32, m: u32, d: u32) -> Option<(i32, u32)>;

/// Relies on `chrono::NaiveDate::parse_from_str` and `Datelike`'s `year`,
/// `month` and `day`: a parsed date has a month in 1..=12 and a day in 1..=31.
#[verifier::external_body]
pub(crate) fn parse_date(s: &str, fmt: &str) -> (r: Option<(i32, u32, u32)>)
    ensures
        r == parsed_date(s@, fmt@),
        r matches Some(d) ==> 1 <= d.1 <= 12 && 1 <= d.2 <= 31,
{
    match chrono::NaiveDate::parse_from_str(s, fmt) {
        Ok(d) => Some((d.year(), d.month(), d.day())),
        Err(_) => None,
    }
}

/// Relies on `chrono::NaiveDateTime::parse_from_str` and `Datelike`'s `year`,
/// `month` and `day`: the date part of a parsed timestamp.
#[verifier::external_body]
pub(crate) fn parse_timestamp_date(s: &str, fmt: &str) -> (r: Option<(i32, u32, u32)>)
    ensures
        r == parsed_timestamp_date(s@, fmt@),
{
    match chrono::NaiveDateTime::parse_from_str(s, fmt) {
        Ok(t) => Some((t.year(), t.month(), t.day())),
        Err(_) => None,
    }
}

/// Relies on `chrono::NaiveDate::from_ymd_opt` and
/// `Weekday::num_days_from_sunday`, which is below 7.
#[verifier::external_body]
fn day_of_week(y: i32, m: u32, d: u32) -> (r: Option<u32>)
    ensures
        r == weekday_from_sunday(y, m, d),
        r matches Some(w) ==> w < 7,
{
    match chrono::NaiveDate::from_ymd_opt(y, m, d) {
        Some(x) => Some(x.weekday().num_days_from_sunday()),
        None => None,
    }
}

/// Relies on `chrono::NaiveDate::from_ymd_opt` and `Datelike::iso_week`: the
/// ISO week, which runs from Monday to Sunday, as its year and number.
#[verifier::external_body]
fn iso_week(y: i32, m: u32, d: u32) -> (r: Option<(i32, u32)>)
    ensures
        r == iso_week_of(y, m, d),
{
    match chrono::NaiveDate::from_ymd_opt(y, m, d) {
        Some(x) => Some((x.iso_week().year(), x.iso_week().week())),
        None => None,
    }
}

/// The format of a stored timestamp.
pub const TIMESTAMP_FORMAT: &'static str = "%Y-%m-%d %H:%M:%S";

/// The format of a stored day.
pub const DAY_FORMAT: &'static str = "%Y-%m-%d";

/// The span that a watch-time series covers.
#[derive(Clone, Copy, Debug, PartialEq, Eq, Structural)]
pub enum ChartRange {
    /// The current week from Monday, by day of the week from Sunday.
    Daily,
    /// The current month, by day of the month.
    Weekly,
    /// The current year, by month.
    Monthly,
}

/// The span that a range name asks for.
pub open spec fn range_of(range: Seq<char>) -> Option<ChartRange> {
    if range == "daily"@ {
        Some(ChartRange::Daily)
    } else if range == "weekly"@ {
        Some(ChartRange::Weekly)
    } else if range == "monthly"@ {
        Some(ChartRange::Monthly)
    } else {
        None
    }
}

/// The number of buckets of a series: 7 by day of the week, one less than
/// the month's length by day of the month, 11 by month, none otherwise.
pub open spec fn series_len(kind: Option<ChartRange>, days_in_month: Option<u8>) -> nat {
    match kind {
        Some(ChartRange::Daily) => 7,
        Some(ChartRange::Weekly) => match days_in_month {
            Some(n) => if n >= 1 { (n - 1) as nat } else { 0 },
            None => 0,
        },
        Some(ChartRange::Monthly) => 11,
        None => 0,
    }
}

/// Seconds in hundredths of an hour, rounded half up.
pub open spec fn centi_hours(w: u32) -> u64 {
    ((w + 18) / 36) as u64
}

/// The bucket a day falls in: by day of the week from Sunday when it lies
/// in the ISO week of `today`; by day of the month (from 0) when its month
/// is that of `today`; by month (from 0) when its year is that of `today`.
pub open spec fn bucket_of(kind: Option<ChartRange>, today: (i32, u32, u32), d: (i32, u32, u32)) -> Option<int> {
    match kind {
        Some(ChartRange::Daily) => {
            let wd = iso_week_of(d.0, d.1, d.2);
            if wd is Some && wd == iso_week_of(today.0, today.1, today.2) {
                match weekday_from_sunday(d.0, d.1, d.2) {
                    Some(w) => Some(w as int),
                    None => None,
                }
            } else {
                None
            }
        },
        Some(ChartRange::Weekly) => if d.0 == today.0 && d.1 == today.1 {
            Some(d.2 - 1)
        } else {
            None
        },
        Some(ChartRange::Monthly) => if d.0 == today.0 {
            Some(d.1 - 1)
        } else {
            None
        },
        None => None,
    }
}

/// The series after one more day: its bucket takes the day's value, or by
/// month adds it (saturating); a day outside every bucket changes nothing.
pub open spec fn add_day(
    acc: Seq<u64>,
    kind: Option<ChartRange>,
    today: (i32, u32, u32),
    d: (i32, u32, u32),
    w: u32,
) -> Seq<u64> {
    match bucket_of(kind, today, d) {
        Some(b) => if 0 <= b < acc.len() {
            if kind == Some(ChartRange::Monthly) {
                let sum = acc[b] + centi_hours(w);
                acc.update(b, if sum > u64::MAX { u64::MAX } else { sum as u64 })
            } else {
                acc.update(b, centi_hours(w))
            }
        } else {
            acc
        },
        None => acc,
    }
}

/// The series of the chart rows in order, starting from all zero.
pub open spec fn series_of(
    kind: Option<ChartRange>,
    n: nat,
    today: (i32, u32, u32),
    entries: Seq<Chart>,
) -> Seq<u64>
    decreases entries.len(),
{
    if entries.len() == 0 {
        Seq::new(n, |i: int| 0u64)
    } else {
        let acc = series_of(kind, n, today, entries.drop_last());
        match parsed_date(entries.last().updated_at@, DAY_FORMAT@) {
            Some(d) => add_day(acc, kind, today, d, entries.last().watchtime),
            None => acc,
        }
    }
}

/// A series by day of the month was asked for without a month length of at
/// least one day.
pub open spec fn lacks_month_length(kind: Option<ChartRange>, days_in_month: Option<u8>) -> bool {
    kind == Some(ChartRange::Weekly) && match days_in_month {
        Some(n) => n == 0,
        None => true,
    }
}

/// Some day of the chart, or `today`, is not a date of the form `YYYY-MM-DD`.
pub open spec fn has_bad_day(today: Seq<char>, entries: Seq<Chart>) -> bool {
    parsed_date(today, DAY_FORMAT@) is None || exists|i: int|
        0 <= i < entries.len() && #[trigger] parsed_date(entries[i].updated_at@, DAY_FORMAT@) is None
}

fn range_kind(range: &str) -> (r: Option<ChartRange>)
    ensures
        r == range_of(range@),
{
    proof {
        reveal_strlit("daily");
        reveal_strlit("weekly");
        reveal_strlit("monthly");
    }
    if str_eq(range, "daily") {
        Some(ChartRange::Daily)
    } else if str_eq(range, "weekly") {
        Some(ChartRange::Weekly)
    } else if str_eq(range, "monthly") {
        Some(ChartRange::Monthly)
    } else {
        None
    }
}

/// Builds the watch-time series of `range` ("daily", "weekly" or
/// "monthly"; any other name gives an empty series) from the chart rows in
/// order, each value in hundredths of an hour. By day of the week and by day
/// of the month a later row replaces an earlier one in the same bucket; by
/// month they add up. Fails when "weekly" comes without a month length of at
/// least one day, and when `today` or a stored day is not a date.
pub fn build_watchtime_series(
    range: &str,
    days_in_month: Option<u8>,
    today: &str,
    entries: &Vec<Chart>,
) -> (r: Result<Vec<u64>, LibraryError>)
    ensures
        r == Err::<Vec<u64>, LibraryError>(LibraryError::MissingDaysInMonth) <==> lacks_month_length(
            range_of(range@),
            days_in_month,
        ),
        r == Err::<Vec<u64>, LibraryError>(LibraryError::InvalidDate) <==> !lacks_month_length(
            range_of(range@),
            days_in_month,
        ) && has_bad_day(today@, entries@),
        !lacks_month_length(range_of(range@), days_in_month) && !has_bad_day(today@, entries@)
            ==> r is Ok,
        r matches Ok(v) ==> parsed_date(today@, DAY_FORMAT@) matches Some(t) && v@ == series_of(
            range_of(range@),
            series_len(range_of(range@), days_in_month),
            t,
            entries@,
        ),
{
    let kind = range_kind(range);
    let n: usize = match kind {
        Some(ChartRange::Daily) => 7,
        Some(ChartRange::Weekly) => match days_in_month {
            Some(d) => if d >= 1 {
                (d - 1) as usize
            } else {
                return Err(LibraryError::MissingDaysInMonth);
            },
            None => return Err(LibraryError::MissingDaysInMonth),
        },
        Some(ChartRange::Monthly) => 11,
        None => 0,
    };
    let t = match parse_date(today, DAY_FORMAT) {
        Some(t) => t,
        None => return Err(LibraryError::InvalidDate),
    };
    let today_week = iso_week(t.0, t.1, t.2);
    let mut acc: Vec<u64> = Vec::new();
    while acc.len() < n
        invariant
            acc.len() <= n,
            forall|j: int| 0 <= j < acc@.len() ==> acc@[j] == 0u64,
        decreases n - acc.len(),
    {
        acc.push(0);
    }
    assert(acc@ =~= series_of(kind, n as nat, t, entries@.take(0)));
    let mut i: usize = 0;
    while i < entries.len()
        invariant
            i <= entries@.len(),
            kind == range_of(range@),
            n == series_len(kind, days_in_month),
            !lacks_month_length(kind, days_in_month),
            Some(t) == parsed_date(today@, DAY_FORMAT@),
            today_week == iso_week_of(t.0, t.1, t.2),
            acc@ == series_of(kind, n as nat, t, entries@.take(i as int)),
            forall|j: int|
                0 <= j < i ==> #[trigger] parsed_date(entries@[j].updated_at@, DAY_FORMAT@) is Some,
        decreases entries.len() - i,
    {
        assert(entries@.take(i + 1).drop_last() =~= entries@.take(i as int));
        let e = &entries[i];
        let d = match parse_date(e.updated_at.as_str(), DAY_FORMAT) {
            Some(d) => d,
            None => {
                assert(parsed_date(entries@[i as int].updated_at@, DAY_FORMAT@) is None);
                return Err(LibraryError::InvalidDate);
            },
        };
        let bucket: Option<usize> = match kind {
            Some(ChartRange::Daily) => {
                let wk = iso_week(d.0, d.1, d.2);
                let same_week = match (wk, today_week) {
                    (Some(a), Some(b)) => a.0 == b.0 && a.1 == b.1,
                    _ => false,
                };
                if same_week {
                    match day_of_week(d.0, d.1, d.2) {
                        Some(w) => Some(w as usize),
                        None => None,
                    }
                } else {
                    None
                }
            },
            Some(ChartRange::Weekly) => if d.0 == t.0 && d.1 == t.1 {
                Some((d.2 - 1) as usize)
            } else {
                None
            },
            Some(ChartRange::Monthly) => if d.0 == t.0 {
                Some((d.1 - 1) as usize)
            } else {
                None
            },
            None => None,
        };
        match bucket {
            Some(b) => if b < acc.len() {
                let c: u64 = ((e.watchtime as u64) + 18) / 36;
                if kind == Some(ChartRange::Monthly) {
                    let cur = acc[b];
                    let v = if cur > u64::MAX - c {
                        u64::MAX
                    } else {
                        cur + c
                    };
                    acc.set(b, v);
                } else {
                    acc.set(b, c);
                }
            },
            None => {},
        }
        i = i + 1;
    }
    assert(entries@.take(entries@.len() as int) =~= entries@);
    Ok(acc)
}

} // verus!
