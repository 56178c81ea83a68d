//! Due dates: parsing remctl's ISO stamps, labels, and the overdue rules.
//!
//! Every rule takes an explicit `now`, so the rules are testable; the caller
//! supplies the local wall-clock time.

use chrono::{Datelike, Timelike};
use vstd::prelude::*;

use crate::text::{
    chars_of, dec, dec_signed, decimal, decimal_signed, pad2, pad4, padded2, padded4, push_all, push_str, string_of,
    trim, trim_chars,
};

verus! {

/// A calendar date and wall-clock time without a time zone, as
/// `chrono::NaiveDateTime` holds one.
#[derive(Debug, Clone, Copy, PartialEq, Eq, Structural, PartialOrd, Ord, Hash)]
pub struct DateTime {
    pub year: i32,
    pub month: u32,
    pub day: u32,
    pub hour: u32,
    pub minute: u32,
    pub second: u32,
    /// Nanoseconds past the second; `1_000_000_000..` marks a leap second.
    pub nano: u32,
}

/// The earliest and latest years a date can have.
pub open spec fn min_year() -> int {
    -262143
}

pub open spec fn max_year() -> int {
    262142
}

pub open spec fn is_leap_year(y: int) -> bool {
    (y % 4 == 0 && y % 100 != 0) || y % 400 == 0
}

pub open spec fn days_in_month(y: int, m: int) -> int {
    if m == 2 {
        if is_leap_year(y) {
            29
        } else {
            28
        }
    } else if m == 4 || m == 6 || m == 9 || m == 11 {
        30
    } else {
        31
    }
}

/// A real calendar date in the supported range.
pub open spec fn valid_date(y: int, m: int, d: int) -> bool {
    min_year() <= y <= max_year() && 1 <= m <= 12 && 1 <= d <= days_in_month(y, m)
}

/// A real date and time.
pub open spec fn valid_datetime(t: DateTime) -> bool {
    &&& valid_date(t.year as int, t.month as int, t.day as int)
    &&& t.hour < 24
    &&& t.minute < 60
    &&& t.second < 60
    &&& t.nano < 2_000_000_000
}

/// Days from 1970-01-01 to the given date (negative before it).
pub open spec fn days_from_civil(y: int, m: int, d: int) -> int {
    let y2 = (if m <= 2 {
        y - 1
    } else {
        y
    }) + 400000;
    let era = y2 / 400;
    let yoe = y2 - era * 400;
    let mp = if m > 2 {
        m - 3
    } else {
        m + 9
    };
    let doy = (153 * mp + 2) / 5 + d - 1;
    let doe = yoe * 365 + yoe / 4 - yoe / 100 + doy;
    (era - 1000) * 146097 + doe - 719468
}

/// Day number of a date-time's date.
pub open spec fn day_number(t: DateTime) -> int {
    days_from_civil(t.year as int, t.month as int, t.day as int)
}

/// Weekday of a day number: 0 is Monday.
pub open spec fn weekday_of(days: int) -> int {
    (days + 3) % 7
}

/// `a` comes no later than `b`.
pub open spec fn dt_le(a: DateTime, b: DateTime) -> bool {
    if a.year != b.year {
        a.year < b.year
    } else if a.month != b.month {
        a.month < b.month
    } else if a.day != b.day {
        a.day < b.day
    } else if a.hour != b.hour {
        a.hour < b.hour
    } else if a.minute != b.minute {
        a.minute < b.minute
    } else if a.second != b.second {
        a.second < b.second
    } else {
        a.nano <= b.nano
    }
}

/// `a` comes strictly before `b`.
pub open spec fn dt_lt(a: DateTime, b: DateTime) -> bool {
    dt_le(a, b) && a != b
}

/// Same calendar day.
pub open spec fn same_date(a: DateTime, b: DateTime) -> bool {
    a.year == b.year && a.month == b.month && a.day == b.day
}

/// `a`'s calendar day comes before `b`'s.
pub open spec fn date_lt(a: DateTime, b: DateTime) -> bool {
    if a.year != b.year {
        a.year < b.year
    } else if a.month != b.month {
        a.month < b.month
    } else {
        a.day < b.day
    }
}

impl DateTime {
    /// Whether `self` comes no later than `other`.
    pub fn le(&self, other: &DateTime) -> (r: bool)
        ensures
            r == dt_le(*self, *other),
    {
        if self.year != other.year {
            self.year < other.year
        } else if self.month != other.month {
            self.month < other.month
        } else if self.day != other.day {
            self.day < other.day
        } else if self.hour != other.hour {
            self.hour < other.hour
        } else if self.minute != other.minute {
            self.minute < other.minute
        } else if self.second != other.second {
            self.second < other.second
        } else {
            self.nano <= other.nano
        }
    }

    /// Whether `self` comes strictly before `other`.
    pub fn lt(&self, other: &DateTime) -> (r: bool)
        ensures
            r == dt_lt(*self, *other),
    {
        self.le(other) && *self != *other
    }

    /// Midnight of the given date.
    pub fn midnight(year: i32, month: u32, day: u32) -> (t: DateTime)
        ensures
            t == (DateTime { year, month, day, hour: 0, minute: 0, second: 0, nano: 0 }),
    {
        DateTime { year, month, day, hour: 0, minute: 0, second: 0, nano: 0 }
    }

    /// `NaiveDateTime::MAX`: the last representable moment.
    pub fn max_value() -> (t: DateTime)
        ensures
            t == (DateTime {
                year: 262142,
                month: 12,
                day: 31,
                hour: 23,
                minute: 59,
                second: 59,
                nano: 999_999_999,
            }),
    {
        DateTime {
            year: 262142,
            month: 12,
            day: 31,
            hour: 23,
            minute: 59,
            second: 59,
            nano: 999_999_999,
        }
    }
}

/// Days from 1970-01-01 to a valid date.
pub fn civil_days(y: i32, m: u32, d: u32) -> (n: i64)
    requires
        valid_date(y as int, m as int, d as int),
    ensures
        n == days_from_civil(y as int, m as int, d as int),
{
    let y2: i64 = (if m <= 2 {
        y as i64 - 1
    } else {
        y as i64
    }) + 400000;
    let era: i64 = y2 / 400;
    let yoe: i64 = y2 - era * 400;
    let mp: i64 = if m > 2 {
        m as i64 - 3
    } else {
        m as i64 + 9
    };
    let doy: i64 = (153 * mp + 2) / 5 + d as i64 - 1;
    let doe: i64 = yoe * 365 + yoe / 4 - yoe / 100 + doy;
    (era - 1000) * 146097 + doe - 719468
}

/// Weekday (0 is Monday) of a day number.
pub fn weekday(days: i64) -> (w: usize)
    requires
        -200_000_000 <= days <= 200_000_000,
    ensures
        w == weekday_of(days as int),
        w < 7,
{
    let shifted: i64 = days + 3 + 7 * 100_000_000;
    proof {
        assert((days + 3 + 7 * 100_000_000) % 7 == (days + 3) % 7) by (nonlinear_arith);
    }
    (shifted % 7) as usize
}

/// What `NaiveDateTime::parse_from_str(text, fmt)` returns for these inputs.
pub uninterp spec fn chrono_naive_datetime(text: Seq<char>, fmt: Seq<char>) -> Option<DateTime>;

/// What `NaiveDate::parse_from_str(text, fmt)` returns, as (year, month, day).
pub uninterp spec fn chrono_naive_date(text: Seq<char>, fmt: Seq<char>) -> Option<(i32, u32, u32)>;

/// The instant `DateTime::parse_from_rfc3339(text)` denotes, as its UTC
/// date-time (`naive_utc`); None when it does not parse.
pub uninterp spec fn chrono_rfc3339_utc(text: Seq<char>) -> Option<DateTime>;

/// The instant `DateTime::parse_from_str(text, fmt)` denotes, as its UTC
/// date-time (`naive_utc`); None when it does not parse.
pub uninterp spec fn chrono_aware_utc(text: Seq<char>, fmt: Seq<char>) -> Option<DateTime>;

/// Seconds since the epoch of a date-time read as UTC.
pub open spec fn instant_secs(t: DateTime) -> int {
    day_number(t) * 86400 + t.hour * 3600 + t.minute * 60 + t.second
}

/// `t` is less than a day away from `u`: a wall-clock reading of the
/// instant `u` under an offset from UTC, which is always under a day.
pub open spec fn near(t: DateTime, u: DateTime) -> bool {
    -86400 < instant_secs(t) - instant_secs(u) < 86400
}

/// The instant lies at least a day inside the dates chrono holds: in
/// neither its first nor its last year.
pub open spec fn well_inside(u: DateTime) -> bool {
    min_year() < u.year < max_year()
}

/// What holds of an instant `u` and its local reading `l`: `u` is a valid
/// date-time; the reading exists when `u` is well inside chrono's range;
/// and a reading is a valid date-time less than a day from `u`.
pub open spec fn local_fits(u: DateTime, l: Option<DateTime>) -> bool {
    &&& valid_datetime(u)
    &&& well_inside(u) ==> l is Some
    &&& l matches Some(t) ==> valid_datetime(t) && near(t, u)
}

/// `chrono::NaiveDateTime::parse_from_str`: the contract claims the result is
/// the named parse of these inputs and, when there is one, a valid date-time
/// (chrono holds only valid dates).
#[verifier::external_body]
pub(crate) fn parse_naive_datetime(text: &str, fmt: &str) -> (r: Option<DateTime>)
    ensures
        r == chrono_naive_datetime(text@, fmt@),
        r matches Some(t) ==> valid_datetime(t),
{
    match chrono::NaiveDateTime::parse_from_str(text, fmt) {
        Ok(t) => Some(DateTime {
            year: t.year(),
            month: t.month(),
            day: t.day(),
            hour: t.hour(),
            minute: t.minute(),
            second: t.second(),
            nano: t.nanosecond(),
        }),
        Err(_) => None,
    }
}

/// `chrono::NaiveDate::parse_from_str`: the contract claims the result is the
/// named parse of these inputs and, when there is one, a valid date.
#[verifier::external_body]
pub(crate) fn parse_naive_date(text: &str, fmt: &str) -> (r: Option<(i32, u32, u32)>)
    ensures
        r == chrono_naive_date(text@, fmt@),
        r matches Some(d) ==> valid_date(d.0 as int, d.1 as int, d.2 as int),
{
    match chrono::NaiveDate::parse_from_str(text, fmt) {
        Ok(d) => Some((d.year(), d.month(), d.day())),
        Err(_) => None,
    }
}

/// `chrono::DateTime::parse_from_rfc3339`, its instant as UTC, and that
/// instant on the machine's local clock: `Local.offset_from_utc_datetime`
/// then `NaiveDateTime::checked_add_offset`, None when the reading falls
/// outside chrono's range. The contract claims the UTC instant is the named
/// parse and the reading is within a day of it (a `FixedOffset` is under a
/// day); which reading it is depends on the machine's time zone and is left
/// unsaid.
#[verifier::external_body]
pub(crate) fn parse_rfc3339_local(text: &str) -> (r: Option<(DateTime, Option<DateTime>)>)
    ensures
        match r {
            Some((u, l)) => chrono_rfc3339_utc(text@) == Some(u) && local_fits(u, l),
            None => chrono_rfc3339_utc(text@) is None,
        },
{
    let f = |t: chrono::NaiveDateTime| DateTime {
        year: t.year(), month: t.month(), day: t.day(),
        hour: t.hour(), minute: t.minute(), second: t.second(), nano: t.nanosecond(),
    };
    match chrono::DateTime::parse_from_rfc3339(text) {
        Ok(a) => {
            let u = a.naive_utc();
            let l = u.checked_add_offset(chrono::TimeZone::offset_from_utc_datetime(&chrono::Local, &u));
            Some((f(u), match l { Some(t) => Some(f(t)), None => None }))
        },
        Err(_) => None,
    }
}

/// `chrono::DateTime::parse_from_str(text, fmt)`, its instant as UTC, and
/// that instant on the machine's local clock, as for RFC 3339 above.
#[verifier::external_body]
pub(crate) fn parse_aware_local(text: &str, fmt: &str) -> (r: Option<(DateTime, Option<DateTime>)>)
    ensures
        match r {
            Some((u, l)) => chrono_aware_utc(text@, fmt@) == Some(u) && local_fits(u, l),
            None => chrono_aware_utc(text@, fmt@) is None,
        },
{
    let f = |t: chrono::NaiveDateTime| DateTime {
        year: t.year(), month: t.month(), day: t.day(),
        hour: t.hour(), minute: t.minute(), second: t.second(), nano: t.nanosecond(),
    };
    match chrono::DateTime::parse_from_str(text, fmt) {
        Ok(a) => {
            let u = a.naive_utc();
            let l = u.checked_add_offset(chrono::TimeZone::offset_from_utc_datetime(&chrono::Local, &u));
            Some((f(u), match l { Some(t) => Some(f(t)), None => None }))
        },
        Err(_) => None,
    }
}

/// The stamp parse_due hands to chrono: trimmed, a trailing `Z` spelled `+00:00`.
pub open spec fn due_stamp(value: Seq<char>) -> Seq<char> {
    let t = trim(value);
    if t.len() > 0 && t.last() == 'Z' {
        t.drop_last() + seq!['+', '0', '0', ':', '0', '0']
    } else {
        t
    }
}

/// The offset-carrying formats tried after RFC 3339.
pub open spec fn aware_format(i: int) -> Seq<char> {
    if i == 0 {
        "%Y-%m-%dT%H:%M:%S%.f%:z"@
    } else if i == 1 {
        "%Y-%m-%d %H:%M:%S%.f%:z"@
    } else if i == 2 {
        "%Y-%m-%dT%H:%M%:z"@
    } else {
        "%Y-%m-%d %H:%M%:z"@
    }
}

/// The zone-less formats tried last.
pub open spec fn naive_format(i: int) -> Seq<char> {
    if i == 0 {
        "%Y-%m-%dT%H:%M:%S%.f"@
    } else if i == 1 {
        "%Y-%m-%d %H:%M:%S%.f"@
    } else if i == 2 {
        "%Y-%m-%dT%H:%M"@
    } else {
        "%Y-%m-%d %H:%M"@
    }
}

/// The result of the zone-less attempts: the first format that parses, else a
/// bare date at midnight, else nothing.
pub open spec fn naive_due(t: Seq<char>) -> Option<DateTime> {
    if chrono_naive_datetime(t, naive_format(0)) is Some {
        chrono_naive_datetime(t, naive_format(0))
    } else if chrono_naive_datetime(t, naive_format(1)) is Some {
        chrono_naive_datetime(t, naive_format(1))
    } else if chrono_naive_datetime(t, naive_format(2)) is Some {
        chrono_naive_datetime(t, naive_format(2))
    } else if chrono_naive_datetime(t, naive_format(3)) is Some {
        chrono_naive_datetime(t, naive_format(3))
    } else {
        match chrono_naive_date(t, "%Y-%m-%d"@) {
            Some(d) => Some(
                DateTime { year: d.0, month: d.1, day: d.2, hour: 0, minute: 0, second: 0, nano: 0 },
            ),
            None => None,
        }
    }
}

/// The instant of the first zoned form the stamp parses as: RFC 3339, then
/// the aware formats in order.
pub open spec fn aware_instant(t: Seq<char>) -> Option<DateTime> {
    if chrono_rfc3339_utc(t) is Some {
        chrono_rfc3339_utc(t)
    } else if chrono_aware_utc(t, aware_format(0)) is Some {
        chrono_aware_utc(t, aware_format(0))
    } else if chrono_aware_utc(t, aware_format(1)) is Some {
        chrono_aware_utc(t, aware_format(1))
    } else if chrono_aware_utc(t, aware_format(2)) is Some {
        chrono_aware_utc(t, aware_format(2))
    } else {
        chrono_aware_utc(t, aware_format(3))
    }
}

/// What `parse_due` may return for `value`: nothing for a blank stamp; for a
/// stamp with an offset, the local reading of the instant it denotes (less
/// than a day from it, and there whenever the instant is well inside
/// chrono's range); the zone-less parse otherwise.
pub open spec fn due_fits(value: Seq<char>, r: Option<DateTime>) -> bool {
    &&& trim(value).len() == 0 ==> r is None
    &&& trim(value).len() > 0 ==> match aware_instant(due_stamp(value)) {
        Some(u) => (well_inside(u) ==> r is Some) && (r matches Some(t) ==> near(t, u)),
        None => r == naive_due(due_stamp(value)),
    }
    &&& r matches Some(t) ==> valid_datetime(t)
}

/// Parse a due date string from remctl JSON output.
///
/// Accepts ISO 8601 forms, with or without a time component or timezone, and
/// returns a naive local datetime; None when empty or unparseable.
pub fn parse_due(value: &str) -> (r: Option<DateTime>)
    ensures
        due_fits(value@, r),
{
    let v = chars_of(value);
    let t = trim_chars(v.as_slice());
    if t.len() == 0 {
        return None;
    }
    let mut stamp: Vec<char> = Vec::new();
    if t[t.len() - 1] == 'Z' {
        let n = t.len() - 1;
        let mut i: usize = 0;
        while i < n
            invariant
                n == t@.len() - 1,
                i <= n,
                stamp@ == t@.take(i as int),
            decreases n - i,
        {
            stamp.push(t[i]);
            i += 1;
            assert(stamp@ =~= t@.take(i as int));
        }
        push_str(&mut stamp, "+00:00");
        proof {
            reveal_strlit("+00:00");
            assert(t@.take(n as int) =~= t@.drop_last());
        }
    } else {
        push_all(&mut stamp, t.as_slice());
        assert(stamp@ =~= t@);
    }
    let text = string_of(stamp.as_slice());
    assert(text@ == due_stamp(value@));
    if let Some((_, local)) = parse_rfc3339_local(text.as_str()) {
        return local;
    }
    proof {
        reveal_strlit("%Y-%m-%dT%H:%M:%S%.f%:z");
        reveal_strlit("%Y-%m-%d %H:%M:%S%.f%:z");
        reveal_strlit("%Y-%m-%dT%H:%M%:z");
        reveal_strlit("%Y-%m-%d %H:%M%:z");
    }
    if let Some((_, local)) = parse_aware_local(text.as_str(), "%Y-%m-%dT%H:%M:%S%.f%:z") {
        return local;
    }
    if let Some((_, local)) = parse_aware_local(text.as_str(), "%Y-%m-%d %H:%M:%S%.f%:z") {
        return local;
    }
    if let Some((_, local)) = parse_aware_local(text.as_str(), "%Y-%m-%dT%H:%M%:z") {
        return local;
    }
    if let Some((_, local)) = parse_aware_local(text.as_str(), "%Y-%m-%d %H:%M%:z") {
        return local;
    }
    if let Some(d) = parse_naive_datetime(text.as_str(), "%Y-%m-%dT%H:%M:%S%.f") {
        return Some(d);
    }
    if let Some(d) = parse_naive_datetime(text.as_str(), "%Y-%m-%d %H:%M:%S%.f") {
        return Some(d);
    }
    if let Some(d) = parse_naive_datetime(text.as_str(), "%Y-%m-%dT%H:%M") {
        return Some(d);
    }
    if let Some(d) = parse_naive_datetime(text.as_str(), "%Y-%m-%d %H:%M") {
        return Some(d);
    }
    match parse_naive_date(text.as_str(), "%Y-%m-%d") {
        Some(d) => Some(DateTime::midnight(d.0, d.1, d.2)),
        None => None,
    }
}

/// Overdue once the due moment has passed; an all-day reminder only after its
/// day ends (the allDay flag is authoritative: a timed reminder can be due 00:00).
pub open spec fn overdue(due: Option<DateTime>, all_day: bool, now: DateTime) -> bool {
    match due {
        None => false,
        Some(d) => if all_day {
            date_lt(d, now)
        } else {
            dt_lt(d, now)
        },
    }
}

/// Overdue once the due moment has passed; an all-day reminder only after its
/// day ends (the allDay flag is authoritative: a timed reminder can be due 00:00).
pub fn is_overdue(due: Option<DateTime>, all_day: bool, now: DateTime) -> (r: bool)
    ensures
        r == overdue(due, all_day, now),
{
    match due {
        None => false,
        Some(d) => if all_day {
            if d.year != now.year {
                d.year < now.year
            } else if d.month != now.month {
                d.month < now.month
            } else {
                d.day < now.day
            }
        } else {
            d.lt(&now)
        },
    }
}

/// `a`'s calendar day is strictly before `b`'s: an earlier year, or the
/// same year and an earlier month, or the same month and an earlier day.
pub open spec fn day_before(a: DateTime, b: DateTime) -> bool {
    ||| a.year < b.year
    ||| a.year == b.year && a.month < b.month
    ||| a.year == b.year && a.month == b.month && a.day < b.day
}

/// `a` is a strictly earlier moment than `b`: an earlier day, or the same
/// day and an earlier time of day.
pub open spec fn moment_before(a: DateTime, b: DateTime) -> bool {
    ||| day_before(a, b)
    ||| a.year == b.year && a.month == b.month && a.day == b.day && a.hour < b.hour
    ||| a.year == b.year && a.month == b.month && a.day == b.day && a.hour == b.hour && a.minute < b.minute
    ||| a.year == b.year && a.month == b.month && a.day == b.day && a.hour == b.hour && a.minute == b.minute
        && a.second < b.second
    ||| a.year == b.year && a.month == b.month && a.day == b.day && a.hour == b.hour && a.minute == b.minute
        && a.second == b.second && a.nano < b.nano
}

/// A reminder is overdue exactly when its due day (all-day) or its due
/// moment (timed) lies strictly before now, and never without a due date;
/// what is overdue at one moment is still overdue at any later one.
pub proof fn law_overdue_once_past(d: DateTime, now: DateTime, later: DateTime, all_day: bool)
    ensures
        overdue(Some(d), true, now) <==> day_before(d, now),
        overdue(Some(d), false, now) <==> moment_before(d, now),
        !overdue(None, all_day, now),
        overdue(Some(d), all_day, now) && (moment_before(now, later) || now == later) ==> overdue(Some(d), all_day, later),
{
}

/// Due on `now`'s calendar day.
pub fn is_due_today(due: Option<DateTime>, now: DateTime) -> (r: bool)
    ensures
        r == (due matches Some(d) && same_date(d, now)),
{
    match due {
        Some(d) => d.year == now.year && d.month == now.month && d.day == now.day,
        None => false,
    }
}

/// Dated first (ascending), undated last.
pub fn sort_key(due: Option<DateTime>) -> (k: (u8, DateTime))
    ensures
        k == match due {
            Some(d) => (0u8, d),
            None => (1u8, DateTime {
                year: 262142,
                month: 12,
                day: 31,
                hour: 23,
                minute: 59,
                second: 59,
                nano: 999_999_999,
            }),
        },
{
    match due {
        Some(d) => (0, d),
        None => (1, DateTime::max_value()),
    }
}


/// Three-letter weekday names, Monday first.
pub open spec fn weekday_name(w: int) -> Seq<char> {
    if w == 0 {
        "Mon"@
    } else if w == 1 {
        "Tue"@
    } else if w == 2 {
        "Wed"@
    } else if w == 3 {
        "Thu"@
    } else if w == 4 {
        "Fri"@
    } else if w == 5 {
        "Sat"@
    } else {
        "Sun"@
    }
}

/// Three-letter month names, January first.
pub open spec fn month_name(m: int) -> Seq<char> {
    if m == 1 {
        "Jan"@
    } else if m == 2 {
        "Feb"@
    } else if m == 3 {
        "Mar"@
    } else if m == 4 {
        "Apr"@
    } else if m == 5 {
        "May"@
    } else if m == 6 {
        "Jun"@
    } else if m == 7 {
        "Jul"@
    } else if m == 8 {
        "Aug"@
    } else if m == 9 {
        "Sep"@
    } else if m == 10 {
        "Oct"@
    } else if m == 11 {
        "Nov"@
    } else {
        "Dec"@
    }
}

/// The day part of a due label: `Today`, `Tomorrow`, `Yesterday`, a weekday
/// within the coming week, `Jun 12` this year, `Jan 2, 2027` otherwise.
pub open spec fn day_label(due: DateTime, now: DateTime) -> Seq<char> {
    let delta = day_number(due) - day_number(now);
    if delta == 0 {
        "Today"@
    } else if delta == 1 {
        "Tomorrow"@
    } else if delta == -1 {
        "Yesterday"@
    } else if 2 <= delta <= 6 {
        weekday_name(weekday_of(day_number(due)))
    } else if due.year == now.year {
        month_name(due.month as int) + seq![' '] + dec(due.day as nat)
    } else {
        month_name(due.month as int) + seq![' '] + dec(due.day as nat) + seq![',', ' ']
            + dec_signed(due.year as int)
    }
}

/// The full label: the day part, then ` HH:MM` unless the reminder is all-day
/// or due exactly at midnight; empty without a due date.
pub open spec fn humanize(due: Option<DateTime>, all_day: bool, now: DateTime) -> Seq<char> {
    match due {
        None => Seq::empty(),
        Some(d) => if all_day || (d.hour == 0 && d.minute == 0 && d.second == 0) {
            day_label(d, now)
        } else {
            day_label(d, now) + seq![' '] + pad2(d.hour as nat) + seq![':'] + pad2(d.minute as nat)
        },
    }
}

fn weekday_str(w: usize) -> (s: &'static str)
    requires
        w < 7,
    ensures
        s@ == weekday_name(w as int),
{
    if w == 0 {
        "Mon"
    } else if w == 1 {
        "Tue"
    } else if w == 2 {
        "Wed"
    } else if w == 3 {
        "Thu"
    } else if w == 4 {
        "Fri"
    } else if w == 5 {
        "Sat"
    } else {
        "Sun"
    }
}

fn month_abbr(m: u32) -> (s: &'static str)
    ensures
        s@ == month_name(m as int),
{
    if m == 1 {
        "Jan"
    } else if m == 2 {
        "Feb"
    } else if m == 3 {
        "Mar"
    } else if m == 4 {
        "Apr"
    } else if m == 5 {
        "May"
    } else if m == 6 {
        "Jun"
    } else if m == 7 {
        "Jul"
    } else if m == 8 {
        "Aug"
    } else if m == 9 {
        "Sep"
    } else if m == 10 {
        "Oct"
    } else if m == 11 {
        "Nov"
    } else {
        "Dec"
    }
}

pub proof fn lemma_days_bounds(y: int, m: int, d: int)
    requires
        valid_date(y, m, d),
    ensures
        -100_000_000 <= days_from_civil(y, m, d) <= 100_000_000,
{
}

/// A compact human label: `Today 14:00`, `Tomorrow`, `Yesterday`, `Fri 21:30`,
/// `Jun 12`, `Jan 2, 2027`. All-day (or exactly midnight) drops the time.
pub fn humanize_due(due: Option<DateTime>, all_day: bool, now: DateTime) -> (r: String)
    requires
        due matches Some(d) ==> valid_datetime(d),
        valid_datetime(now),
    ensures
        r@ == humanize(due, all_day, now),
{
    let d = match due {
        None => {
            return String::new();
        },
        Some(d) => d,
    };
    proof {
        lemma_days_bounds(d.year as int, d.month as int, d.day as int);
        lemma_days_bounds(now.year as int, now.month as int, now.day as int);
    }
    let day = civil_days(d.year, d.month, d.day);
    let today = civil_days(now.year, now.month, now.day);
    let delta = day - today;
    let mut label: Vec<char> = Vec::new();
    proof {
        reveal_strlit("Today");
        reveal_strlit("Tomorrow");
        reveal_strlit("Yesterday");
        reveal_strlit(", ");
    }
    if delta == 0 {
        push_str(&mut label, "Today");
    } else if delta == 1 {
        push_str(&mut label, "Tomorrow");
    } else if delta == -1 {
        push_str(&mut label, "Yesterday");
    } else if 2 <= delta && delta <= 6 {
        push_str(&mut label, weekday_str(weekday(day)));
    } else {
        push_str(&mut label, month_abbr(d.month));
        label.push(' ');
        let dd = decimal(d.day as u64);
        push_all(&mut label, dd.as_slice());
        if d.year != now.year {
            label.push(',');
            label.push(' ');
            let yy = decimal_signed(d.year as i64);
            push_all(&mut label, yy.as_slice());
        }
    }
    assert(label@ =~= day_label(d, now));
    if !(all_day || (d.hour == 0 && d.minute == 0 && d.second == 0)) {
        label.push(' ');
        let h = padded2(d.hour as u64);
        push_all(&mut label, h.as_slice());
        label.push(':');
        let m = padded2(d.minute as u64);
        push_all(&mut label, m.as_slice());
        assert(label@ =~= humanize(due, all_day, now));
    }
    string_of(label.as_slice())
}

/// `%Y`: the year with four digits at least, signed outside `0..=9999`.
pub open spec fn year_text(y: int) -> Seq<char> {
    if y < 0 {
        seq!['-'] + pad4((-y) as nat)
    } else if y > 9999 {
        seq!['+'] + dec(y as nat)
    } else {
        pad4(y as nat)
    }
}

/// `%Y-%m-%d`.
pub open spec fn date_text(t: DateTime) -> Seq<char> {
    year_text(t.year as int) + seq!['-'] + pad2(t.month as nat) + seq!['-'] + pad2(t.day as nat)
}

/// `%Y-%m-%d %H:%M`.
pub open spec fn minute_text(t: DateTime) -> Seq<char> {
    date_text(t) + seq![' '] + pad2(t.hour as nat) + seq![':'] + pad2(t.minute as nat)
}

/// The date of `t` as `%Y-%m-%d` writes it.
pub fn format_date(t: DateTime) -> (r: String)
    ensures
        r@ == date_text(t),
{
    let mut v: Vec<char> = Vec::new();
    if t.year < 0 {
        v.push('-');
        let y: u64 = (-(t.year as i64)) as u64;
        let digits = padded4(y);
        push_all(&mut v, digits.as_slice());
    } else if t.year > 9999 {
        v.push('+');
        let digits = decimal(t.year as u64);
        push_all(&mut v, digits.as_slice());
    } else {
        let digits = padded4(t.year as u64);
        push_all(&mut v, digits.as_slice());
    }
    assert(v@ =~= year_text(t.year as int));
    v.push('-');
    let m = padded2(t.month as u64);
    push_all(&mut v, m.as_slice());
    v.push('-');
    let d = padded2(t.day as u64);
    push_all(&mut v, d.as_slice());
    assert(v@ =~= date_text(t));
    string_of(v.as_slice())
}

/// `t` as `%Y-%m-%d %H:%M` writes it.
pub fn format_minute(t: DateTime) -> (r: String)
    ensures
        r@ == minute_text(t),
{
    let day = format_date(t);
    let mut v = chars_of(day.as_str());
    v.push(' ');
    let h = padded2(t.hour as u64);
    push_all(&mut v, h.as_slice());
    v.push(':');
    let m = padded2(t.minute as u64);
    push_all(&mut v, m.as_slice());
    assert(v@ =~= minute_text(t));
    string_of(v.as_slice())
}

/// `%Y-%m-%dT%H:%M:%S`; a leap second shows as second 60.
pub open spec fn stamp_text(t: DateTime) -> Seq<char> {
    date_text(t) + seq!['T'] + pad2(t.hour as nat) + seq![':'] + pad2(t.minute as nat) + seq![':'] + pad2(
        (t.second + t.nano / 1_000_000_000) as nat,
    )
}

/// `t` as `%Y-%m-%dT%H:%M:%S` writes it.
pub fn format_stamp(t: DateTime) -> (r: String)
    requires
        valid_datetime(t),
    ensures
        r@ == stamp_text(t),
{
    let day = format_date(t);
    let mut v = chars_of(day.as_str());
    v.push('T');
    push_all(&mut v, padded2(t.hour as u64).as_slice());
    v.push(':');
    push_all(&mut v, padded2(t.minute as u64).as_slice());
    v.push(':');
    let sec: u64 = t.second as u64 + (t.nano / 1_000_000_000) as u64;
    push_all(&mut v, padded2(sec).as_slice());
    assert(v@ =~= stamp_text(t));
    string_of(v.as_slice())
}

proof fn lemma_dec_short(n: nat)
    requires
        n < 10_000_000_000,
    ensures
        dec(n).len() <= 10,
{
    assert(pow10(10) == 10_000_000_000) by {
        reveal_with_fuel(pow10, 11);
    }
    lemma_dec_len(n, 10);
}

proof fn lemma_dec_len(n: nat, k: nat)
    requires
        k >= 1,
        n < pow10(k),
    ensures
        dec(n).len() <= k,
    decreases k,
{
    if n >= 10 {
        assert(k >= 2) by {
            if k == 1 {
                assert(pow10(1) == 10) by {
                    assert(pow10(0) == 1);
                }
            }
        }
        assert(n / 10 < pow10((k - 1) as nat)) by {
            assert(pow10(k) == 10 * pow10((k - 1) as nat));
        }
        lemma_dec_len(n / 10, (k - 1) as nat);
    }
}

/// Ten to the power `k`.
pub open spec fn pow10(k: nat) -> nat
    decreases k,
{
    if k == 0 {
        1
    } else {
        10 * pow10((k - 1) as nat)
    }
}

/// The date and time texts are short.
pub proof fn lemma_texts_short(t: DateTime)
    ensures
        date_text(t).len() <= 40,
        minute_text(t).len() <= 70,
{
    let y = t.year as int;
    if y < 0 {
        lemma_dec_short((-y) as nat);
    } else {
        lemma_dec_short(y as nat);
    }
    lemma_dec_short(t.month as nat);
    lemma_dec_short(t.day as nat);
    lemma_dec_short(t.hour as nat);
    lemma_dec_short(t.minute as nat);
}

/// The first and last day numbers a date can have.
pub open spec fn first_day() -> int {
    days_from_civil(min_year(), 1, 1)
}

pub open spec fn last_day() -> int {
    days_from_civil(max_year(), 12, 31)
}

/// `NaiveDate + TimeDelta::days(n)`, checked: for a valid date, the date `n`
/// days later when chrono can hold it. Its documentation gives the result
/// as the date that many days on, and None only when that date falls
/// outside chrono's range, which runs from the first to the last day.
#[verifier::external_body]
pub(crate) fn date_plus_days(y: i32, m: u32, d: u32, n: i64) -> (r: Option<(i32, u32, u32)>)
    requires
        valid_date(y as int, m as int, d as int),
    ensures
        r matches Some(t) ==> valid_date(t.0 as int, t.1 as int, t.2 as int) && days_from_civil(t.0 as int, t.1 as int, t.2 as int)
            == days_from_civil(y as int, m as int, d as int) + n,
        first_day() <= days_from_civil(y as int, m as int, d as int) + n <= last_day() ==> r is Some,
{
    let date = chrono::NaiveDate::from_ymd_opt(y, m, d)?;
    let later = date.checked_add_signed(chrono::TimeDelta::try_days(n)?)?;
    Some((later.year(), later.month(), later.day()))
}

} // verus!
