//! Timestamps.
use vstd::prelude::*;

use crate::text::{decimal, decimal_text, digits_value, lemma_padded_reads, pad, padded};

verus! {

/// A year with a day more.
pub open spec fn leap(y: int) -> bool {
    y % 4 == 0 && (y % 100 != 0 || y % 400 == 0)
}

pub open spec fn year_days(y: int) -> int {
    if leap(y) {
        366
    } else {
        365
    }
}

pub open spec fn month_days(y: int, m: int) -> int {
    if m == 2 {
        if leap(y) {
            29
        } else {
            28
        }
    } else if m == 4 || m == 6 || m == 9 || m == 11 {
        30
    } else {
        31
    }
}

/// Days from the start of 1970 to the start of a year.
pub open spec fn days_to_year(y: int) -> int
    decreases y,
{
    if y <= 1970 {
        0
    } else {
        days_to_year(y - 1) + year_days(y - 1)
    }
}

/// Days from the start of a year to the start of one of its months.
pub open spec fn days_to_month(y: int, m: int) -> int
    decreases m,
{
    if m <= 1 {
        0
    } else {
        days_to_month(y, m - 1) + month_days(y, m - 1)
    }
}

/// A date of the Gregorian calendar.
#[derive(Clone, Copy, Debug, PartialEq, Eq, Structural)]
pub struct Date {
    pub year: u64,
    pub month: u64,
    pub day: u64,
}

impl Date {
    /// The month and the day exist.
    pub open spec fn wf(self) -> bool {
        &&& 1970 <= self.year
        &&& 1 <= self.month <= 12
        &&& 1 <= self.day <= month_days(self.year as int, self.month as int)
    }

    /// Days since the start of 1970.
    pub open spec fn days(self) -> int {
        days_to_year(self.year as int) + days_to_month(self.year as int, self.month as int)
            + self.day - 1
    }
}

/// Leap years before a year, by the rule.
spec fn leaps_before(y: int) -> int {
    (y - 1) / 4 - (y - 1) / 100 + (y - 1) / 400
}

proof fn lemma_leaps(y: int)
    requires
        y >= 1970,
    ensures
        leaps_before(y + 1) == leaps_before(y) + if leap(y) {
            1int
        } else {
            0
        },
{
    assert(y / 4 == (y - 1) / 4 + if y % 4 == 0 {
        1int
    } else {
        0
    });
    assert(y / 100 == (y - 1) / 100 + if y % 100 == 0 {
        1int
    } else {
        0
    });
    assert(y / 400 == (y - 1) / 400 + if y % 400 == 0 {
        1int
    } else {
        0
    });
    assert(y % 100 == 0 ==> y % 4 == 0);
    assert(y % 400 == 0 ==> y % 100 == 0);
}

proof fn lemma_days_to_year(y: int)
    requires
        y >= 1970,
    ensures
        days_to_year(y) == 365 * (y - 1970) + leaps_before(y) - leaps_before(1970),
    decreases y,
{
    if y > 1970 {
        lemma_days_to_year(y - 1);
        lemma_leaps(y - 1);
    }
}

/// The calendar repeats itself every four hundred years, which are 146097 days.
pub proof fn calendar_repeats(y: int)
    requires
        y >= 1970,
    ensures
        days_to_year(y + 400) == days_to_year(y) + 146097,
        forall|m: int| month_days(y + 400, m) == #[trigger] month_days(y, m),
{
    lemma_days_to_year(y);
    lemma_days_to_year(y + 400);
    assert((y + 399) / 4 == (y - 1) / 4 + 100);
    assert((y + 399) / 100 == (y - 1) / 100 + 4);
    assert((y + 399) / 400 == (y - 1) / 400 + 1);
    assert((y + 400) % 4 == y % 4);
    assert((y + 400) % 100 == y % 100);
    assert((y + 400) % 400 == y % 400);
}

proof fn lemma_cycles(n: nat)
    ensures
        days_to_year(1970 + 400 * n as int) == 146097 * n,
    decreases n,
{
    if n > 0 {
        lemma_cycles((n - 1) as nat);
        calendar_repeats(1970 + 400 * (n - 1));
    }
}

proof fn lemma_year_is_months(y: int)
    ensures
        days_to_month(y, 13) == year_days(y),
{
    reveal_with_fuel(days_to_month, 14);
}

/// The months before a month are days before it.
proof fn lemma_days_to_month(y: int, m: int)
    ensures
        days_to_month(y, m) >= 0,
        m <= 1 ==> days_to_month(y, m) == 0,
    decreases m,
{
    if m > 1 {
        lemma_days_to_month(y, m - 1);
    }
}

proof fn lemma_days_grow(a: int, b: int)
    requires
        a <= b,
    ensures
        days_to_year(a) <= days_to_year(b),
    decreases b - a,
{
    if a < b {
        lemma_days_grow(a, b - 1);
    }
}

proof fn lemma_months_grow(y: int, a: int, b: int)
    requires
        a <= b,
    ensures
        days_to_month(y, a) <= days_to_month(y, b),
    decreases b - a,
{
    if a < b {
        lemma_months_grow(y, a, b - 1);
    }
}

/// A day has one date.
pub proof fn dates_are_unique(a: Date, b: Date)
    requires
        a.wf(),
        b.wf(),
        a.days() == b.days(),
    ensures
        a == b,
{
    lemma_date_order(a, b);
    lemma_date_order(b, a);
}

/// A later date is a later day.
proof fn lemma_date_order(a: Date, b: Date)
    requires
        a.wf(),
        b.wf(),
    ensures
        a.year < b.year ==> a.days() < b.days(),
        a.year == b.year && a.month < b.month ==> a.days() < b.days(),
        a.year == b.year && a.month == b.month && a.day < b.day ==> a.days() < b.days(),
{
    let (ya, ma) = (a.year as int, a.month as int);
    let (yb, mb) = (b.year as int, b.month as int);
    lemma_days_to_month(yb, mb);
    lemma_months_grow(ya, ma + 1, 13);
    lemma_year_is_months(ya);
    if a.year < b.year {
        lemma_days_grow(ya + 1, yb);
    } else if a.year == b.year && a.month < b.month {
        lemma_months_grow(ya, ma + 1, mb);
    }
}

fn is_leap(y: u64) -> (res: bool)
    ensures
        res == leap(y as int),
{
    y % 4 == 0 && (y % 100 != 0 || y % 400 == 0)
}

fn days_in_month(y: u64, m: u64) -> (res: u64)
    ensures
        res == month_days(y as int, m as int),
{
    if m == 2 {
        if is_leap(y) {
            29
        } else {
            28
        }
    } else if m == 4 || m == 6 || m == 9 || m == 11 {
        30
    } else {
        31
    }
}

/// The date of a day, counted from the start of 1970.
pub fn date_of(days: u64) -> (res: Date)
    ensures
        res.wf(),
        res.days() == days,
{
    let cycles: u64 = days / 146097;
    let mut left: u64 = days % 146097;
    let mut year: u64 = 1970 + 400 * cycles;
    proof {
        lemma_cycles(cycles as nat);
        calendar_repeats(year as int);
    }
    let ghost end = year + 400;
    loop
        invariant
            1970 <= year < end,
            end == 1970 + 400 * cycles + 400,
            cycles <= u64::MAX / 146097,
            days_to_year(year as int) + left == days,
            days < days_to_year(end),
        ensures
            1970 <= year,
            days_to_year(year as int) + left == days,
            left < year_days(year as int),
        decreases end - year,
    {
        let length: u64 = if is_leap(year) {
            366
        } else {
            365
        };
        if left < length {
            break;
        }
        assert(days_to_year(year + 1) == days_to_year(year as int) + length);
        left = left - length;
        year = year + 1;
    }
    let mut month: u64 = 1;
    proof {
        lemma_year_is_months(year as int);
    }
    loop
        invariant
            1 <= month <= 12,
            days_to_month(year as int, month as int) + left < days_to_month(year as int, 13),
            days_to_year(year as int) + days_to_month(year as int, month as int) + left == days,
        ensures
            1 <= month <= 12,
            days_to_year(year as int) + days_to_month(year as int, month as int) + left == days,
            left < month_days(year as int, month as int),
        decreases 12 - month,
    {
        let length: u64 = days_in_month(year, month);
        if left < length {
            break;
        }
        left = left - length;
        month = month + 1;
    }
    Date { year, month, day: left + 1 }
}

/// A number with at least two digits.
pub open spec fn two_digits(n: nat) -> Seq<char> {
    padded(decimal_text(n), 2, '0')
}

/// The timestamp of a date and the seconds of its day.
pub open spec fn timestamp_text(d: Date, second: nat) -> Seq<char> {
    padded(decimal_text(d.year as nat), 4, '0') + "-"@ + two_digits(d.month as nat) + "-"@
        + two_digits(d.day as nat) + "T"@ + two_digits(second / 3600) + ":"@ + two_digits(
        second / 60 % 60,
    ) + ":"@ + two_digits(second % 60) + "Z"@
}

/// The RFC 3339 timestamp of a time, in seconds since the start of 1970.
pub fn rfc3339_utc(seconds: u64) -> (res: String)
    ensures
        exists|d: Date|
            #![trigger d.wf()]
            d.wf() && d.days() == seconds / 86400 && res@ == timestamp_text(
                d,
                (seconds % 86400) as nat,
            ),
{
    let d = date_of(seconds / 86400);
    let second: u64 = seconds % 86400;
    let mut s = pad(decimal(d.year).as_str(), 4, '0');
    s.append("-");
    s.append(pad(decimal(d.month).as_str(), 2, '0').as_str());
    s.append("-");
    s.append(pad(decimal(d.day).as_str(), 2, '0').as_str());
    s.append("T");
    s.append(pad(decimal(second / 3600).as_str(), 2, '0').as_str());
    s.append(":");
    s.append(pad(decimal(second / 60 % 60).as_str(), 2, '0').as_str());
    s.append(":");
    s.append(pad(decimal(second % 60).as_str(), 2, '0').as_str());
    s.append("Z");
    assert(d.wf() && s@ == timestamp_text(d, (seconds % 86400) as nat));
    s
}

// ---------------------------------------------------------------------------
// Days and times
// ---------------------------------------------------------------------------

/// The length of a month as everyone knows it.
pub open spec fn known_length(year: u64, month: u64) -> int {
    if month == 1 || month == 3 || month == 5 || month == 7 || month == 8 || month == 10 || month
        == 12 {
        31
    } else if month != 2 {
        30
    } else if year % 400 == 0 || (year % 4 == 0 && year % 100 != 0) {
        29
    } else {
        28
    }
}

/// The count starts with the first of January 1970, and each day is followed by the
/// next one of its month, by the first of the next month, or by the first of January of
/// the next year.
pub proof fn days_follow_one_another(days: u64, a: Date, b: Date)
    requires
        days < u64::MAX,
        call_ensures(date_of, (days,), a),
        call_ensures(date_of, ((days + 1) as u64,), b),
    ensures
        days == 0 ==> a == (Date { year: 1970, month: 1, day: 1 }),
        a.day < known_length(a.year, a.month) ==> b == (Date { day: (a.day + 1) as u64, ..a }),
        a.day == known_length(a.year, a.month) && a.month < 12 ==> b == (Date {
            month: (a.month + 1) as u64,
            day: 1,
            ..a
        }),
        a.day == known_length(a.year, a.month) && a.month == 12 ==> b == (Date {
            year: (a.year + 1) as u64,
            month: 1,
            day: 1,
        }),
        1 <= a.day <= known_length(a.year, a.month),
        1 <= a.month <= 12,
{
    let y = a.year as int;
    assert(month_days(y, a.month as int) == known_length(a.year, a.month));
    if days == 0 {
        let first = Date { year: 1970, month: 1, day: 1 };
        assert(first.wf() && first.days() == 0);
        dates_are_unique(a, first);
    }
    lemma_year_is_months(y);
    let next = if a.day < known_length(a.year, a.month) {
        Date { day: (a.day + 1) as u64, ..a }
    } else if a.month < 12 {
        Date { month: (a.month + 1) as u64, day: 1, ..a }
    } else {
        Date { year: (a.year + 1) as u64, month: 1, day: 1 }
    };
    lemma_years_are_bounded(y);
    lemma_days_to_month(y, a.month as int);
    assert(a.year < u64::MAX);
    assert(next.wf());
    assert(days_to_month(y, a.month + 1) == days_to_month(y, a.month as int) + month_days(
        y,
        a.month as int,
    ));
    assert(days_to_month(y + 1, 1) == 0);
    assert(days_to_month(y, 13) == days_to_month(y, 12) + month_days(y, 12));
    assert(days_to_year(y + 1) == days_to_year(y) + year_days(y));
    assert(next.days() == days + 1);
    dates_are_unique(b, next);
}

/// There are at least as many days as years.
proof fn lemma_years_are_bounded(y: int)
    requires
        y >= 1970,
    ensures
        days_to_year(y) >= 365 * (y - 1970),
    decreases y,
{
    if y > 1970 {
        lemma_years_are_bounded(y - 1);
    }
}

/// A timestamp can be taken apart again: its parts stand at their places, the date is
/// that of the day and the time of day is what is left over.
pub proof fn timestamps_read_back(seconds: u64, d: Date, res: String)
    requires
        call_ensures(rfc3339_utc, (seconds,), res),
        call_ensures(date_of, (seconds / 86400,), d),
        d.year < 10_000,
    ensures
        res@.len() == 20,
        digits_value(res@.subrange(0, 4)) == d.year,
        digits_value(res@.subrange(5, 7)) == d.month,
        digits_value(res@.subrange(8, 10)) == d.day,
        digits_value(res@.subrange(11, 13)) * 3600 + digits_value(res@.subrange(14, 16)) * 60
            + digits_value(res@.subrange(17, 19)) == seconds % 86400,
        digits_value(res@.subrange(14, 16)) < 60,
        digits_value(res@.subrange(17, 19)) < 60,
        res@[4] == '-' && res@[7] == '-' && res@[10] == 'T' && res@[13] == ':' && res@[16] == ':'
            && res@[19] == 'Z',
{
    let e = choose|e: Date|
        #![trigger e.wf()]
        e.wf() && e.days() == seconds / 86400 && res@ == timestamp_text(
            e,
            (seconds % 86400) as nat,
        );
    dates_are_unique(d, e);
    let second = (seconds % 86400) as nat;
    reveal_strlit("-");
    reveal_strlit("T");
    reveal_strlit(":");
    reveal_strlit("Z");
    let year = padded(decimal_text(d.year as nat), 4, '0');
    let month = two_digits(d.month as nat);
    let day = two_digits(d.day as nat);
    let (h, m, s) = (second / 3600, second / 60 % 60, second % 60);
    lemma_padded_reads(d.year as nat, 4);
    lemma_padded_reads(d.month as nat, 2);
    lemma_padded_reads(d.day as nat, 2);
    lemma_padded_reads(h, 2);
    lemma_padded_reads(m, 2);
    lemma_padded_reads(s, 2);
    assert(h * 3600 + m * 60 + s == second);
    assert(res@.subrange(0, 4) == year);
    assert(res@.subrange(5, 7) == month);
    assert(res@.subrange(8, 10) == day);
    assert(res@.subrange(11, 13) == two_digits(h));
    assert(res@.subrange(14, 16) == two_digits(m));
    assert(res@.subrange(17, 19) == two_digits(s));
}

} // verus!
