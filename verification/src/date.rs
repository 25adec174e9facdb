//! Dates and times of commits.

use vstd::prelude::*;

#[allow(unused_imports)]
use crate::text::{decimal, padded};
use crate::text::to_padded;

verus! {

// ---------------------------------------------------------------------------
// The calendar
// ---------------------------------------------------------------------------

/// Whether a year of the Gregorian calendar has a 29th of February.
pub open spec fn leap(y: int) -> bool {
    y % 4 == 0 && (y % 100 != 0 || y % 400 == 0)
}

/// The days of a month.
pub open spec fn month_len(y: int, m: int) -> int {
    if m == 2 {
        if leap(y) {
            29
        } else {
            28
        }
    } else if m == 4 || m == 6 || m == 9 || m == 11 {
        30
    } else {
        31
    }
}

/// The days of a year.
pub open spec fn year_len(y: int) -> int {
    if leap(y) {
        366
    } else {
        365
    }
}

/// The days from the 1st of January 1970 to the 1st of January of a year.
pub open spec fn year_start(y: int) -> int
    decreases
            if y >= 1970 {
                y - 1970
            } else {
                1970 - y
            },
{
    if y == 1970 {
        0
    } else if y > 1970 {
        year_start(y - 1) + year_len(y - 1)
    } else {
        year_start(y + 1) - year_len(y)
    }
}

/// The days of a year before a month.
pub open spec fn month_start(y: int, m: int) -> int
    decreases m,
{
    if m <= 1 {
        0
    } else {
        month_start(y, m - 1) + month_len(y, m - 1)
    }
}

/// A day of the Gregorian calendar.
#[verifier::ext_equal]
pub struct Date {
    pub year: int,
    pub month: int,
    pub day: int,
}

impl Date {
    /// Whether the calendar has that day.
    pub open spec fn valid(self) -> bool {
        &&& 1 <= self.month <= 12
        &&& 1 <= self.day <= month_len(self.year, self.month)
    }

    /// The days from the 1st of January 1970 to that day.
    pub open spec fn number(self) -> int {
        year_start(self.year) + month_start(self.year, self.month) + self.day - 1
    }
}

/// The day a number of days after the 1st of January 1970.
pub open spec fn date_of(days: int) -> Date {
    choose|d: Date| #[trigger] d.valid() && d.number() == days
}

// ---------------------------------------------------------------------------
// Finding the date of a day
// ---------------------------------------------------------------------------

/// The leap years from the year 1 up to the end of a year.
spec fn leaps(y: int) -> int {
    y / 4 - y / 100 + y / 400
}

proof fn lemma_leaps(y: int)
    ensures
        leaps(y) - leaps(y - 1) == year_len(y) - 365,
{
}

proof fn lemma_year_start(y: int)
    ensures
        year_start(y) == 365 * y + leaps(y - 1) - 719527,
    decreases
            if y >= 1970 {
                y - 1970
            } else {
                1970 - y
            },
{
    if y > 1970 {
        lemma_year_start(y - 1);
        lemma_leaps(y - 1);
    } else if y < 1970 {
        lemma_year_start(y + 1);
        lemma_leaps(y);
    }
}

proof fn lemma_month_start(y: int)
    ensures
        month_start(y, 1) == 0,
        month_start(y, 2) == 31,
        month_start(y, 3) == 31 + month_len(y, 2),
        month_start(y, 4) == 62 + month_len(y, 2),
        month_start(y, 5) == 92 + month_len(y, 2),
        month_start(y, 6) == 123 + month_len(y, 2),
        month_start(y, 7) == 153 + month_len(y, 2),
        month_start(y, 8) == 184 + month_len(y, 2),
        month_start(y, 9) == 215 + month_len(y, 2),
        month_start(y, 10) == 245 + month_len(y, 2),
        month_start(y, 11) == 276 + month_len(y, 2),
        month_start(y, 12) == 306 + month_len(y, 2),
{
    reveal_with_fuel(month_start, 13);
}

/// The day of an era of 400 years, counted from a 1st of March, falls in the
/// year `yoe` of the era that the formula gives.
proof fn lemma_year_of_era(doe: int, yoe: int, doy: int)
    requires
        0 <= doe < 146097,
        yoe == (doe - doe / 1460 + doe / 36524 - doe / 146096) / 365,
        doy == doe - (365 * yoe + yoe / 4 - yoe / 100),
    ensures
        0 <= yoe < 400,
        0 <= doy < year_len(yoe + 1),
{
}

/// The day of a year that starts in March falls in the month that the formula
/// gives.
proof fn lemma_month_of_year(y: int, doy: int, mp: int, m: int, d: int)
    requires
        0 <= doy < year_len(y + 1),
        mp == (5 * doy + 2) / 153,
        d == doy - (153 * mp + 2) / 5 + 1,
        m == (if mp < 10 {
            mp + 3
        } else {
            mp - 9
        }),
    ensures
        0 <= mp < 12,
        ({
            let date = Date {
                year: if m <= 2 {
                    y + 1
                } else {
                    y
                },
                month: m,
                day: d,
            };
            &&& date.valid()
            &&& date.number() == 365 * y + leaps(y) - 719468 + doy
        }),
{
    lemma_month_start(y);
    lemma_month_start(y + 1);
    lemma_year_start(y);
    lemma_year_start(y + 1);
    lemma_leaps(y);
    assert(0 <= mp < 12);
    assert(mp == 0 || mp == 1 || mp == 2 || mp == 3 || mp == 4 || mp == 5 || mp == 6 || mp == 7
        || mp == 8 || mp == 9 || mp == 10 || mp == 11);
}

/// Leap years repeat every 400 years.
proof fn lemma_era(y: int, era: int)
    ensures
        year_len(y + 400 * era) == year_len(y),
        leaps(y + 400 * era) == leaps(y) + 97 * era,
{
    assert((y + 400 * era) % 4 == y % 4);
    assert((y + 400 * era) % 100 == y % 100);
    assert((y + 400 * era) % 400 == y % 400);
}

/// The date of a day: what the parts of the computation come to.
proof fn lemma_civil(z: int, era: int, doe: int, yoe: int, doy: int, mp: int, m: int, d: int)
    requires
        era == (z + 719468) / 146097,
        doe == (z + 719468) % 146097,
        yoe == (doe - doe / 1460 + doe / 36524 - doe / 146096) / 365,
        doy == doe - (365 * yoe + yoe / 4 - yoe / 100),
        mp == (5 * doy + 2) / 153,
        d == doy - (153 * mp + 2) / 5 + 1,
        m == (if mp < 10 {
            mp + 3
        } else {
            mp - 9
        }),
    ensures
        ({
            let y = yoe + era * 400;
            let date = Date {
                year: if m <= 2 {
                    y + 1
                } else {
                    y
                },
                month: m,
                day: d,
            };
            &&& date.valid()
            &&& date.number() == z
        }),
{
    lemma_year_of_era(doe, yoe, doy);
    lemma_era(yoe, era);
    lemma_era(yoe + 1, era);
    let y = yoe + era * 400;
    assert(y + 1 == yoe + 1 + 400 * era);
    lemma_month_of_year(y, doy, mp, m, d);
    assert(leaps(yoe) == yoe / 4 - yoe / 100);
}

/// The days of one year all come before those of the next.
proof fn lemma_years_grow(a: int, b: int)
    requires
        a <= b,
    ensures
        year_start(a) <= year_start(b),
        a < b ==> year_start(a) + year_len(a) <= year_start(b),
    decreases b - a,
{
    if a < b {
        lemma_years_grow(a + 1, b);
        lemma_year_start(a);
        lemma_year_start(a + 1);
        lemma_leaps(a);
    }
}

proof fn lemma_months_grow(y: int, a: int, b: int)
    requires
        1 <= a < b,
    ensures
        month_start(y, a) + month_len(y, a) <= month_start(y, b),
    decreases b,
{
    if a < b - 1 {
        lemma_months_grow(y, a, b - 1);
    }
}

proof fn lemma_in_year(d: Date)
    requires
        d.valid(),
    ensures
        year_start(d.year) <= d.number() < year_start(d.year) + year_len(d.year),
{
    lemma_month_start(d.year);
    if d.month > 1 {
        lemma_months_grow(d.year, 1, d.month);
    }
    if d.month < 12 {
        lemma_months_grow(d.year, d.month, 12);
    }
}

/// Two dates of the same day are the same.
pub proof fn a_day_has_one_date(a: Date, b: Date)
    requires
        a.valid(),
        b.valid(),
        a.number() == b.number(),
    ensures
        a == b,
{
    lemma_in_year(a);
    lemma_in_year(b);
    if a.year < b.year {
        lemma_years_grow(a.year, b.year);
    } else if b.year < a.year {
        lemma_years_grow(b.year, a.year);
    } else if a.month < b.month {
        lemma_months_grow(a.year, a.month, b.month);
    } else if b.month < a.month {
        lemma_months_grow(a.year, b.month, a.month);
    }
}

/// Every day has a date, and `date_of` finds it.
pub proof fn every_day_has_a_date(days: int)
    ensures
        date_of(days).valid(),
        date_of(days).number() == days,
{
    let era = (days + 719468) / 146097;
    let doe = (days + 719468) % 146097;
    let yoe = (doe - doe / 1460 + doe / 36524 - doe / 146096) / 365;
    let doy = doe - (365 * yoe + yoe / 4 - yoe / 100);
    let mp = (5 * doy + 2) / 153;
    let m = if mp < 10 {
        mp + 3
    } else {
        mp - 9
    };
    let d = doy - (153 * mp + 2) / 5 + 1;
    lemma_civil(days, era, doe, yoe, doy, mp, m, d);
    let y = yoe + era * 400;
    let date = Date {
        year: if m <= 2 {
            y + 1
        } else {
            y
        },
        month: m,
        day: d,
    };
    assert(date.valid() && date.number() == days);
}

/// Rounding down by a division that rounds towards zero.
proof fn lemma_round_down(z: int, era: int)
    requires
        era == (if z >= 0 {
            z / 146097
        } else {
            -((146096 - z) / 146097)
        }),
    ensures
        era == z / 146097,
        z - era * 146097 == z % 146097,
{
}

/// Days since the epoch as year, month and day.
#[verifier::rlimit(40)]
pub fn civil_from_days(z: i64) -> (r: (i64, u32, u32))
    requires
        z <= i64::MAX - 719468,
    ensures
        (Date { year: r.0 as int, month: r.1 as int, day: r.2 as int }) == date_of(z as int),
{
    let ghost days = z as int;
    let z: i64 = z + 719_468;
    let era: i64 = if z >= 0 {
        z / 146_097
    } else {
        -((146_096 - z) / 146_097)
    };
    proof {
        lemma_round_down(z as int, era as int);
    }
    let doe: i64 = z - era * 146_097;
    let yoe: i64 = (doe - doe / 1460 + doe / 36_524 - doe / 146_096) / 365;
    assert(0 <= yoe < 400) by {
        lemma_year_of_era(
            doe as int,
            yoe as int,
            doe - (365 * yoe + yoe as int / 4 - yoe as int / 100),
        );
    }
    let y: i64 = yoe + era * 400;
    let doy: i64 = doe - (365 * yoe + yoe / 4 - yoe / 100);
    let mp: i64 = (5 * doy + 2) / 153;
    let d: i64 = doy - (153 * mp + 2) / 5 + 1;
    let m: i64 = if mp < 10 {
        mp + 3
    } else {
        mp - 9
    };
    let year: i64 = if m <= 2 {
        y + 1
    } else {
        y
    };
    proof {
        lemma_civil(
            days,
            era as int,
            doe as int,
            yoe as int,
            doy as int,
            mp as int,
            m as int,
            d as int,
        );
        let date = Date { year: year as int, month: m as int, day: d as int };
        every_day_has_a_date(days);
        a_day_has_one_date(date, date_of(days));
    }
    (year, m as u32, d as u32)
}

// ---------------------------------------------------------------------------
// Times
// ---------------------------------------------------------------------------

/// When something was signed: seconds since the epoch, and by how many minutes
/// the signer's clock was ahead of universal time.
#[derive(Clone, Copy)]
pub struct Time {
    pub seconds: i64,
    pub offset_minutes: i32,
}

/// A year with at least four characters.
pub open spec fn year_text(y: int) -> Seq<char> {
    if y >= 0 {
        padded(y as nat, 4)
    } else {
        seq!['-'] + padded((-y) as nat, 3)
    }
}

/// A day as `YYYY-MM-DD`.
pub open spec fn date_text(d: Date) -> Seq<char> {
    year_text(d.year) + seq!['-'] + padded(d.month as nat, 2) + seq!['-'] + padded(d.day as nat, 2)
}

/// An offset from universal time as `±HHMM`.
pub open spec fn offset_text(minutes: int) -> Seq<char> {
    let abs = if minutes < 0 {
        -minutes
    } else {
        minutes
    };
    seq![
        if minutes < 0 {
            '-'
        } else {
            '+'
        },
    ] + padded((abs / 60) as nat, 2) + padded((abs % 60) as nat, 2)
}

impl Time {
    /// The seconds that the signer's clock showed.
    pub open spec fn local(self) -> int {
        self.seconds + self.offset_minutes * 60
    }

    /// The time as `YYYY-MM-DD HH:MM ±HHMM`, by the signer's clock.
    pub open spec fn text(self) -> Seq<char> {
        let of_day = self.local() % 86400;
        date_text(date_of(self.local() / 86400)) + seq![' '] + padded((of_day / 3600) as nat, 2)
            + seq![':'] + padded((of_day % 3600 / 60) as nat, 2) + seq![' '] + offset_text(
            self.offset_minutes as int,
        )
    }

    /// Whether the time can be computed with in 64 bits.
    pub open spec fn fits(self) -> bool {
        &&& i64::MIN <= self.local() <= i64::MAX
        &&& self.offset_minutes > i32::MIN
    }
}

/// A day as `YYYY-MM-DD`.
fn date_string(days: i64) -> (r: String)
    requires
        days <= i64::MAX - 719468,
    ensures
        r@ == date_text(date_of(days as int)),
{
    let (y, m, d) = civil_from_days(days);
    proof {
        every_day_has_a_date(days as int);
    }
    let mut r = String::new();
    if y < 0 {
        r.push('-');
        r.append(to_padded((-(y as i128)) as u128, 3).as_str());
    } else {
        r.append(to_padded(y as u128, 4).as_str());
    }
    assert(r@ =~= year_text(y as int));
    r.push('-');
    r.append(to_padded(m as u128, 2).as_str());
    r.push('-');
    r.append(to_padded(d as u128, 2).as_str());
    assert(r@ =~= date_text(date_of(days as int)));
    r
}

/// An offset from universal time as `±HHMM`.
fn offset_string(off: i32) -> (r: String)
    requires
        off > i32::MIN,
    ensures
        r@ == offset_text(off as int),
{
    let mut r = String::new();
    let abs: i32 = if off < 0 {
        r.push('-');
        -off
    } else {
        r.push('+');
        off
    };
    r.append(to_padded((abs / 60) as u128, 2).as_str());
    r.append(to_padded((abs % 60) as u128, 2).as_str());
    assert(r@ =~= offset_text(off as int));
    r
}

/// Format a timestamp as `YYYY-MM-DD HH:MM ±HHMM` in the author's own timezone.
pub fn format_time(t: &Time) -> (r: String)
    requires
        t.fits(),
    ensures
        r@ == t.text(),
{
    let local: i64 = (t.seconds as i128 + t.offset_minutes as i128 * 60) as i64;
    let days: i64 = if local >= 0 {
        local / 86_400
    } else {
        -((-(local + 1)) / 86_400) - 1
    };
    let of_day: i64 = (local as i128 - days as i128 * 86_400) as i64;
    assert(days == t.local() / 86400 && of_day == t.local() % 86400);
    let mut r = date_string(days);
    r.push(' ');
    r.append(to_padded((of_day / 3600) as u128, 2).as_str());
    r.push(':');
    r.append(to_padded((of_day % 3600 / 60) as u128, 2).as_str());
    r.push(' ');
    r.append(offset_string(t.offset_minutes).as_str());
    assert(r@ =~= t.text());
    r
}

/// Whether a time can be computed with in 64 bits.
pub fn time_fits(t: &Time) -> (r: bool)
    ensures
        r == t.fits(),
{
    let local: i128 = t.seconds as i128 + t.offset_minutes as i128 * 60;
    local >= i64::MIN as i128 && local <= i64::MAX as i128 && t.offset_minutes > i32::MIN
}

// ---------------------------------------------------------------------------
// What a calendar and a clock show
// ---------------------------------------------------------------------------

/// February has 29 days in every fourth year, but for those of a full century
/// that is not itself a fourth; the other months have 30 or 31 in every year.
pub proof fn months_have_their_days(y: int, m: int)
    requires
        1 <= m <= 12,
    ensures
        m == 2 && y % 400 == 0 ==> month_len(y, m) == 29,
        m == 2 && y % 400 != 0 && y % 100 == 0 ==> month_len(y, m) == 28,
        m == 2 && y % 100 != 0 && y % 4 == 0 ==> month_len(y, m) == 29,
        m == 2 && y % 4 != 0 ==> month_len(y, m) == 28,
        m == 4 || m == 6 || m == 9 || m == 11 ==> month_len(y, m) == 30,
        m == 1 || m == 3 || m == 5 || m == 7 || m == 8 || m == 10 || m == 12 ==> month_len(y, m)
            == 31,
{
}

/// The day of a month that comes behind another.
pub open spec fn day_after(d: Date) -> Date {
    if d.day < month_len(d.year, d.month) {
        Date { day: d.day + 1, ..d }
    } else if d.month < 12 {
        Date { year: d.year, month: d.month + 1, day: 1 }
    } else {
        Date { year: d.year + 1, month: 1, day: 1 }
    }
}

/// The days are counted from the 1st of January 1970, and each is the one behind
/// the day before: the next of the month, or the first of the next month, or the
/// first of the next year.
pub proof fn days_follow_one_another(days: int)
    ensures
        date_of(0) == (Date { year: 1970, month: 1, day: 1 }),
        date_of(days + 1) == day_after(date_of(days)),
{
    every_day_has_a_date(0);
    every_day_has_a_date(days);
    every_day_has_a_date(days + 1);
    let zero = Date { year: 1970, month: 1, day: 1 };
    lemma_month_start(1970);
    assert(year_start(1970) == 0);
    assert(zero.valid() && zero.number() == 0);
    a_day_has_one_date(date_of(0), zero);
    let d = date_of(days);
    let next = day_after(d);
    lemma_month_start(d.year);
    lemma_month_start(d.year + 1);
    lemma_year_start(d.year);
    lemma_year_start(d.year + 1);
    lemma_leaps(d.year);
    if d.day < month_len(d.year, d.month) {
    } else if d.month < 12 {
        assert(month_start(d.year, d.month + 1) == month_start(d.year, d.month) + month_len(
            d.year,
            d.month,
        ));
    } else {
        assert(d.month == 12);
        assert(month_len(d.year, 12) == 31);
    }
    assert(next.valid());
    assert(next.number() == days + 1);
    a_day_has_one_date(date_of(days + 1), next);
}

/// The two digits of a number below a hundred.
pub open spec fn two_digits(n: int) -> Seq<char> {
    seq![(0x30 + n / 10) as char, (0x30 + n % 10) as char]
}

proof fn lemma_two_digits(n: nat)
    requires
        n < 100,
    ensures
        padded(n, 2) == two_digits(n as int),
{
    if n < 10 {
        assert(decimal(n).len() == 1);
        assert(padded(n, 2) =~= two_digits(n as int));
    } else {
        assert(decimal(n / 10).len() == 1);
        assert(padded(n, 2) =~= two_digits(n as int));
    }
}

proof fn lemma_four_digits(n: nat)
    requires
        n < 10000,
    ensures
        padded(n, 4) == two_digits(n as int / 100) + two_digits(n as int % 100),
        n >= 1000 ==> decimal(n).len() == 4,
{
    reveal_with_fuel(decimal, 5);
    assert(n / 10 / 10 == n / 100);
    assert(n / 10 / 10 / 10 == n / 1000);
    let (h, l) = (n as int / 100, n as int % 100);
    assert(h / 10 == n as int / 1000);
    assert(h % 10 == n / 10 / 10 % 10);
    assert(l / 10 == n / 10 % 10);
    assert(l % 10 == n % 10);
    if n < 10 {
        assert(decimal(n).len() == 1);
    } else if n < 100 {
        assert(decimal(n).len() == 2);
    } else if n < 1000 {
        assert(decimal(n).len() == 3);
    } else {
        assert(decimal(n).len() == 4);
    }
    assert(padded(n, 4) =~= two_digits(h) + two_digits(l));
}

/// The time is shown by the signer's clock: the date, the hour and the minute
/// that it showed, two digits each and the year with four, and behind them how
/// far that clock is from universal time, in hours and minutes, with its sign.
pub proof fn the_clock_of_the_signer_is_shown(
    t: Time,
    days: int,
    hour: int,
    minute: int,
    second: int,
    off_hours: int,
    off_minutes: int,
)
    requires
        t.seconds + 60 * t.offset_minutes == 86400 * days + 3600 * hour + 60 * minute + second,
        0 <= hour < 24,
        0 <= minute < 60,
        0 <= second < 60,
        0 <= off_hours < 100,
        0 <= off_minutes < 60,
        t.offset_minutes == 60 * off_hours + off_minutes || t.offset_minutes == -(60 * off_hours
            + off_minutes),
        0 <= date_of(days).year < 10000,
    ensures
        ({
            let d = date_of(days);
            t.text() == two_digits(d.year / 100) + two_digits(d.year % 100) + seq!['-']
                + two_digits(d.month) + seq!['-'] + two_digits(d.day) + seq![' '] + two_digits(hour)
                + seq![':'] + two_digits(minute) + seq![
                ' ',
                if t.offset_minutes < 0 {
                    '-'
                } else {
                    '+'
                },
            ] + two_digits(off_hours) + two_digits(off_minutes)
        }),
{
    let local = t.local();
    assert(local / 86400 == days && local % 86400 == 3600 * hour + 60 * minute + second);
    let of_day = local % 86400;
    assert(of_day / 3600 == hour && of_day % 3600 == 60 * minute + second);
    assert(of_day % 3600 / 60 == minute);
    let abs = 60 * off_hours + off_minutes;
    assert(abs / 60 == off_hours && abs % 60 == off_minutes);
    let d = date_of(days);
    every_day_has_a_date(days);
    lemma_four_digits(d.year as nat);
    lemma_two_digits(d.month as nat);
    lemma_two_digits(d.day as nat);
    lemma_two_digits(hour as nat);
    lemma_two_digits(minute as nat);
    lemma_two_digits(off_hours as nat);
    lemma_two_digits(off_minutes as nat);
    assert(t.text() =~= two_digits(d.year / 100) + two_digits(d.year % 100) + seq!['-']
        + two_digits(d.month) + seq!['-'] + two_digits(d.day) + seq![' '] + two_digits(hour)
        + seq![':'] + two_digits(minute) + seq![
        ' ',
        if t.offset_minutes < 0 {
            '-'
        } else {
            '+'
        },
    ] + two_digits(off_hours) + two_digits(off_minutes));
}

/// A year outside the four digits is written out in full, one before the year 0
/// behind a sign.
pub proof fn far_years_are_written_in_full(y: int)
    ensures
        y >= 10000 ==> year_text(y) == decimal(y as nat),
        y < -999 ==> year_text(y) == seq!['-'] + decimal((-y) as nat),
        -1000 < y < 0 ==> year_text(y).len() == 4 && year_text(y)[0] == '-' && year_text(y).skip(1)
            == padded((-y) as nat, 3),
{
    if y >= 10000 {
        lemma_long(y as nat, 4);
        assert(year_text(y) =~= decimal(y as nat));
    } else if y < -999 {
        lemma_long((-y) as nat, 3);
        assert(year_text(y) =~= seq!['-'] + decimal((-y) as nat));
    } else if y < 0 {
        lemma_short((-y) as nat);
        assert(year_text(y).skip(1) =~= padded((-y) as nat, 3));
    }
}

proof fn lemma_long(n: nat, width: nat)
    requires
        width == 4 && n >= 10000 || width == 3 && n >= 1000,
    ensures
        decimal(n).len() > width,
{
    reveal_with_fuel(decimal, 5);
}

proof fn lemma_short(n: nat)
    requires
        n < 1000,
    ensures
        decimal(n).len() <= 3,
{
    reveal_with_fuel(decimal, 4);
}

} // verus!
