//! The civil calendar: days since 1970-01-01 as dates, and back.

use vstd::prelude::*;

verus! {

/// A day of the civil calendar.
#[derive(Clone, Copy, Debug, PartialEq, Eq, Structural)]
pub struct Date {
    /// 0 is the year before year 1.
    pub year: i64,
    /// 1 is January.
    pub month: u64,
    /// 1 is the first of the month.
    pub day: u64,
}

/// The year has a 29th of February.
pub open spec fn is_leap(year: int) -> bool {
    year % 4 == 0 && (year % 100 != 0 || year % 400 == 0)
}

/// How many days the month has.
pub open spec fn days_in_month(year: int, month: int) -> int {
    if month == 2 {
        if is_leap(year) {
            29
        } else {
            28
        }
    } else if month == 4 || month == 6 || month == 9 || month == 11 {
        30
    } else {
        31
    }
}

/// How many days of the year lie before the first of the month.
pub open spec fn days_before_month(year: int, month: int) -> int
    decreases month,
{
    if month <= 1 {
        0
    } else {
        days_before_month(year, month - 1) + days_in_month(year, month - 1)
    }
}

/// The leap years from year 1 up to and with `year`.
pub open spec fn leap_years_upto(year: int) -> int {
    year / 4 - year / 100 + year / 400
}

/// How many days the first of January of `year` lies behind that of 1970.
pub open spec fn year_start(year: int) -> int {
    365 * (year - 1970) + leap_years_upto(year - 1) - leap_years_upto(1969)
}

impl Date {
    /// There is such a day.
    pub open spec fn valid(self) -> bool {
        &&& 1 <= self.month <= 12
        &&& 1 <= self.day <= days_in_month(self.year as int, self.month as int)
    }

    /// Days since 1970-01-01.
    pub open spec fn day_number(self) -> int {
        year_start(self.year as int) + days_before_month(self.year as int, self.month as int)
            + self.day - 1
    }

    /// The day after.
    pub open spec fn tomorrow(self) -> Date {
        if self.day < days_in_month(self.year as int, self.month as int) {
            Date { day: (self.day + 1) as u64, ..self }
        } else if self.month < 12 {
            Date { day: 1, month: (self.month + 1) as u64, ..self }
        } else {
            Date { day: 1, month: 1, year: (self.year + 1) as i64 }
        }
    }
}

/// The date so many days after 1970-01-01.
pub open spec fn date_of(days: int) -> Date {
    choose|date: Date| date.valid() && #[trigger] date.day_number() == days
}

/// Days before each month, written out.
proof fn lemma_month_table(year: int)
    ensures
        days_before_month(year, 1) == 0,
        days_before_month(year, 2) == 31,
        days_before_month(year, 3) == 59 + leap_day(year),
        days_before_month(year, 4) == 90 + leap_day(year),
        days_before_month(year, 5) == 120 + leap_day(year),
        days_before_month(year, 6) == 151 + leap_day(year),
        days_before_month(year, 7) == 181 + leap_day(year),
        days_before_month(year, 8) == 212 + leap_day(year),
        days_before_month(year, 9) == 243 + leap_day(year),
        days_before_month(year, 10) == 273 + leap_day(year),
        days_before_month(year, 11) == 304 + leap_day(year),
        days_before_month(year, 12) == 334 + leap_day(year),
        days_before_month(year, 13) == 365 + leap_day(year),
{
    reveal_with_fuel(days_before_month, 13);
}

spec fn leap_day(year: int) -> int {
    if is_leap(year) {
        1
    } else {
        0
    }
}

/// Each year starts as many days after the one before as that one has.
proof fn lemma_year_step(year: int)
    ensures
        year_start(year + 1) == year_start(year) + 365 + leap_day(year),
{
    lemma_multiple_step(year);
}

/// A quotient steps where the year is a multiple.
proof fn lemma_multiple_step(n: int)
    ensures
        n / 4 == (n - 1) / 4 + (if n % 4 == 0 {
            1int
        } else {
            0
        }),
        n / 100 == (n - 1) / 100 + (if n % 100 == 0 {
            1int
        } else {
            0
        }),
        n / 400 == (n - 1) / 400 + (if n % 400 == 0 {
            1int
        } else {
            0
        }),
        n % 400 == 0 ==> n % 100 == 0,
        n % 100 == 0 ==> n % 4 == 0,
{
    assert(n % 400 == 0 ==> n % 100 == 0) by {
        assert(n == 400 * (n / 400) + n % 400);
        if n % 400 == 0 {
            assert(n == 100 * (4 * (n / 400)));
        }
    }
    assert(n % 100 == 0 ==> n % 4 == 0) by {
        assert(n == 100 * (n / 100) + n % 100);
        if n % 100 == 0 {
            assert(n == 4 * (25 * (n / 100)));
        }
    }
}

proof fn lemma_year_order(a: int, b: int)
    requires
        a <= b,
    ensures
        year_start(a) <= year_start(b),
{
}

/// Earlier months lie wholly before later ones.
proof fn lemma_month_order(year: int, a: int, b: int)
    requires
        1 <= a < b <= 13,
    ensures
        days_before_month(year, a) + days_in_month(year, a) <= days_before_month(year, b),
    decreases b - a,
{
    if a + 1 < b {
        lemma_month_order(year, a, b - 1);
    }
}

/// A date lies in its year.
proof fn lemma_within_year(date: Date)
    requires
        date.valid(),
    ensures
        year_start(date.year as int) <= date.day_number() < year_start(date.year + 1),
{
    let y = date.year as int;
    lemma_month_table(y);
    lemma_year_step(y);
    lemma_month_order(y, date.month as int, 13);
    if date.month > 1 {
        lemma_month_order(y, 1, date.month as int);
    }
}

/// Two dates with the same day number are the same date.
pub proof fn law_day_numbers_are_unique(a: Date, b: Date)
    requires
        a.valid(),
        b.valid(),
        a.day_number() == b.day_number(),
    ensures
        a == b,
{
    lemma_within_year(a);
    lemma_within_year(b);
    if a.year < b.year {
        lemma_year_order(a.year + 1, b.year as int);
    } else if b.year < a.year {
        lemma_year_order(b.year + 1, a.year as int);
    } else if a.month < b.month {
        lemma_month_order(a.year as int, a.month as int, b.month as int);
    } else if b.month < a.month {
        lemma_month_order(a.year as int, b.month as int, a.month as int);
    }
}

/// A valid date is the date of its day number.
pub proof fn law_date_of_day_number(date: Date)
    requires
        date.valid(),
    ensures
        date_of(date.day_number()) == date,
{
    let d = date_of(date.day_number());
    assert(exists|e: Date| e.valid() && #[trigger] e.day_number() == date.day_number());
    law_day_numbers_are_unique(d, date);
}

/// Day 0 is 1970-01-01, and each day is followed by the day after it.
pub proof fn law_days_follow_the_calendar(date: Date)
    requires
        date.valid(),
        date.year < i64::MAX,
    ensures
        date_of(0) == (Date { year: 1970, month: 1, day: 1 }),
        date.tomorrow().valid(),
        date.tomorrow().day_number() == date.day_number() + 1,
        date_of(date.day_number() + 1) == date.tomorrow(),
{
    let epoch = Date { year: 1970, month: 1, day: 1 };
    lemma_month_table(1970);
    assert(epoch.day_number() == 0);
    law_date_of_day_number(epoch);
    let y = date.year as int;
    lemma_month_table(y);
    lemma_month_table(y + 1);
    lemma_year_step(y);
    let next = date.tomorrow();
    assert(days_before_month(y, date.month + 1) == days_before_month(y, date.month as int)
        + days_in_month(y, date.month as int));
    assert(next.valid());
    assert(next.day_number() == date.day_number() + 1);
    law_date_of_day_number(next);
}

/// Each day from 1970 up to the year 10000 has a date.
pub proof fn law_every_day_has_a_date(days: int)
    requires
        0 <= days < year_start(10_000),
    ensures
        date_of(days).valid(),
        date_of(days).day_number() == days,
        1970 <= date_of(days).year < 10_000,
    decreases days,
{
    let epoch = Date { year: 1970, month: 1, day: 1 };
    if days == 0 {
        law_days_follow_the_calendar(epoch);
        lemma_month_table(1970);
    } else {
        law_every_day_has_a_date(days - 1);
        law_days_follow_the_calendar(date_of(days - 1));
    }
    let date = date_of(days);
    lemma_within_year(date);
    if date.year >= 10_000 {
        lemma_year_order(10_000, date.year as int);
    }
    if date.year < 1970 {
        lemma_year_order(date.year + 1, 1970);
    }
}

/// `a` is an earlier date than `b`: by its year, else its month, else its day.
pub open spec fn earlier(a: Date, b: Date) -> bool {
    a.year < b.year || (a.year == b.year && (a.month < b.month || (a.month == b.month && a.day
        < b.day)))
}

/// Dates follow one another as their day numbers do.
pub proof fn law_dates_are_ordered_by_day(a: Date, b: Date)
    requires
        a.valid(),
        b.valid(),
    ensures
        a.day_number() < b.day_number() <==> earlier(a, b),
{
    lemma_within_year(a);
    lemma_within_year(b);
    if a.year < b.year {
        lemma_year_order(a.year + 1, b.year as int);
    } else if b.year < a.year {
        lemma_year_order(b.year + 1, a.year as int);
    } else if a.month < b.month {
        lemma_month_order(a.year as int, a.month as int, b.month as int);
    } else if b.month < a.month {
        lemma_month_order(a.year as int, b.month as int, a.month as int);
    }
}

/// How many spans of four centuries lie before a day that is counted from 0000-03-01.
fn era_of(z: i64) -> (era: i64)
    requires
        z > i64::MIN,
    ensures
        era == z as int / 146_097,
{
    if z >= 0 {
        (z as u64 / 146_097) as i64
    } else {
        -((((-z) as u64 - 1) / 146_097) as i64) - 1
    }
}

/// The date so many days after 1970-01-01, or before it.
pub fn civil_date(days: i64) -> (date: Date)
    requires
        -1_000_000_000_000_000_000 <= days <= 1_000_000_000_000_000_000,
    ensures
        date.valid(),
        date.day_number() == days,
        date == date_of(days as int),
{
    // Counted from 0000-03-01, so that a leap day is the last of its year, its
    // four years, its century (but for one) and its four centuries.
    let z: i64 = days + 719_468;
    let era: i64 = era_of(z);
    let doe: u64 = (z - era * 146_097) as u64;
    let century: u64 = if doe / 36_524 < 3 {
        doe / 36_524
    } else {
        3
    };
    let doc: u64 = doe - century * 36_524;
    let quad: u64 = doc / 1_461;
    let doq: u64 = doc % 1_461;
    let single: u64 = if doq / 365 < 3 {
        doq / 365
    } else {
        3
    };
    let doy: u64 = doq - single * 365;
    let yoe: u64 = 100 * century + 4 * quad + single;
    let y: i64 = 400 * era + yoe as i64;
    let mp: u64 = (5 * doy + 2) / 153;
    let d: u64 = doy - (153 * mp + 2) / 5 + 1;
    let m: u64 = if mp < 10 {
        mp + 3
    } else {
        mp - 9
    };
    let year: i64 = if m <= 2 {
        y + 1
    } else {
        y
    };
    let date = Date { year, month: m, day: d };
    proof {
        lemma_march_year(era as int, century as int, quad as int, single as int, doy as int);
        lemma_month_of(doy as int);
        lemma_date(y as int, doy as int, date);
        law_date_of_day_number(date);
    }
    date
}

/// What a year that starts in March is in terms of years that start in January.
proof fn lemma_march_year(era: int, century: int, quad: int, single: int, doy: int)
    requires
        0 <= century <= 3,
        0 <= quad <= 24,
        0 <= single <= 3,
        0 <= doy <= 365,
        single < 3 ==> doy < 365,
        quad == 24 && single == 3 && century < 3 ==> doy < 365,
    ensures
        ({
            let y = 400 * era + 100 * century + 4 * quad + single;
            &&& 146_097 * era + 36_524 * century + 1_461 * quad + 365 * single - 719_468
                == year_start(y) + 59 + leap_day(y)
            &&& doy == 365 ==> is_leap(y + 1)
        }),
{
    let y = 400 * era + 100 * century + 4 * quad + single;
    assert(y / 4 == 100 * era + 25 * century + quad);
    assert(y / 100 == 4 * era + century);
    assert(y / 400 == era);
    lemma_year_step(y);
    assert(year_start(y + 1) == 365 * (y - 1969) + leap_years_upto(y) - leap_years_upto(1969));
    if doy == 365 {
        assert((y + 1) % 4 == 0);
        if quad == 24 {
            assert(century == 3);
            assert((y + 1) % 400 == 0);
        } else {
            assert((y + 1) % 100 == 4 * quad + 4);
        }
    }
}

/// The date of a day in a year that starts in March.
proof fn lemma_date(y: int, doy: int, date: Date)
    requires
        0 <= doy <= 365,
        doy == 365 ==> is_leap(y + 1),
        ({
            let mp = (5 * doy + 2) / 153;
            &&& date.day == doy - (153 * mp + 2) / 5 + 1
            &&& date.month == if mp < 10 {
                mp + 3
            } else {
                mp - 9
            }
            &&& date.year == if mp < 10 {
                y
            } else {
                y + 1
            }
        }),
    ensures
        date.valid(),
        date.day_number() == year_start(y) + 59 + leap_day(y) + doy,
{
    lemma_month_of(doy);
    lemma_month_table(y);
    lemma_month_table(y + 1);
    lemma_year_step(y);
}

/// The month, counted from March, that a day of such a year lies in.
proof fn lemma_month_of(doy: int)
    requires
        0 <= doy <= 365,
    ensures
        ({
            let mp = (5 * doy + 2) / 153;
            let first = (153 * mp + 2) / 5;
            &&& 0 <= mp <= 11
            &&& first <= doy
            &&& mp == 0 ==> first == 0 && doy < 31
            &&& mp == 1 ==> first == 31 && doy < 61
            &&& mp == 2 ==> first == 61 && doy < 92
            &&& mp == 3 ==> first == 92 && doy < 122
            &&& mp == 4 ==> first == 122 && doy < 153
            &&& mp == 5 ==> first == 153 && doy < 184
            &&& mp == 6 ==> first == 184 && doy < 214
            &&& mp == 7 ==> first == 214 && doy < 245
            &&& mp == 8 ==> first == 245 && doy < 275
            &&& mp == 9 ==> first == 275 && doy < 306
            &&& mp == 10 ==> first == 306 && doy < 337
            &&& mp == 11 ==> first == 337
        }),
{
}

} // verus!
