//! Proleptic-Gregorian calendar arithmetic: dates, months, years and ISO
//! weeks, with day-number based navigation.

use vstd::prelude::*;

verus! {

/// First year the calendar arithmetic covers.
pub const MIN_YEAR: i32 = 1;
/// Last year the calendar arithmetic covers.
pub const MAX_YEAR: i32 = 9999;

/// A day of the week, Monday first.
#[derive(Clone, Copy, Debug, PartialEq, Eq, Structural)]
pub enum Weekday {
    Monday,
    Tuesday,
    Wednesday,
    Thursday,
    Friday,
    Saturday,
    Sunday,
}

/// The weekday with the given index; `0` is Monday, `6` is Sunday.
pub open spec fn weekday_from_index(i: int) -> Weekday {
    if i == 0 {
        Weekday::Monday
    } else if i == 1 {
        Weekday::Tuesday
    } else if i == 2 {
        Weekday::Wednesday
    } else if i == 3 {
        Weekday::Thursday
    } else if i == 4 {
        Weekday::Friday
    } else if i == 5 {
        Weekday::Saturday
    } else {
        Weekday::Sunday
    }
}

/// Index of a weekday, `0` for Monday through `6` for Sunday.
pub open spec fn weekday_index(w: Weekday) -> int {
    match w {
        Weekday::Monday => 0,
        Weekday::Tuesday => 1,
        Weekday::Wednesday => 2,
        Weekday::Thursday => 3,
        Weekday::Friday => 4,
        Weekday::Saturday => 5,
        Weekday::Sunday => 6,
    }
}

/// Gregorian leap-year rule.
pub open spec fn spec_is_leap_year(y: int) -> bool {
    (y % 4 == 0 && y % 100 != 0) || y % 400 == 0
}

/// Number of days in month `m` of year `y`.
pub open spec fn spec_days_in_month(y: int, m: int) -> int {
    if m == 2 {
        if spec_is_leap_year(y) {
            29
        } else {
            28
        }
    } else if m == 4 || m == 6 || m == 9 || m == 11 {
        30
    } else {
        31
    }
}

/// Number of days in year `y`.
pub open spec fn spec_days_in_year(y: int) -> int {
    if spec_is_leap_year(y) {
        366
    } else {
        365
    }
}

/// Days in all years from `MIN_YEAR` up to, excluding, year `y`.
pub open spec fn days_before_year(y: int) -> int
    decreases y,
{
    if y <= 1 {
        0
    } else {
        days_before_year(y - 1) + spec_days_in_year(y - 1)
    }
}

/// Days in all months of year `y` before month `m`.
pub open spec fn days_before_month(y: int, m: int) -> int
    decreases m,
{
    if m <= 1 {
        0
    } else {
        days_before_month(y, m - 1) + spec_days_in_month(y, m - 1)
    }
}

/// Whether `(y, m, d)` names a day of the supported calendar.
pub open spec fn valid_ymd(y: int, m: int, d: int) -> bool {
    &&& MIN_YEAR <= y <= MAX_YEAR
    &&& 1 <= m <= 12
    &&& 1 <= d <= spec_days_in_month(y, m)
}

/// Days since `MIN_YEAR`-01-01; that day itself is day `0`.
pub open spec fn day_number_of(y: int, m: int, d: int) -> int {
    days_before_year(y) + days_before_month(y, m) + (d - 1)
}

/// One-based day of the year.
pub open spec fn ordinal_of(y: int, m: int, d: int) -> int {
    days_before_month(y, m) + d
}

proof fn lemma_days_before_year_bounds(y: int)
    requires
        1 <= y,
    ensures
        365 * (y - 1) <= days_before_year(y) <= 366 * (y - 1),
    decreases y,
{
    if y > 1 {
        lemma_days_before_year_bounds(y - 1);
    }
}

proof fn lemma_days_before_year_monotonic(y1: int, y2: int)
    requires
        y1 <= y2,
    ensures
        days_before_year(y1) <= days_before_year(y2),
    decreases y2 - y1,
{
    if y1 < y2 {
        lemma_days_before_year_monotonic(y1, y2 - 1);
        if y2 > 1 {
            assert(days_before_year(y2) == days_before_year(y2 - 1) + spec_days_in_year(y2 - 1));
        }
    }
}

proof fn lemma_days_before_month_bounds(y: int, m: int)
    requires
        1 <= m <= 13,
    ensures
        28 * (m - 1) <= days_before_month(y, m) <= 31 * (m - 1),
    decreases m,
{
    if m > 1 {
        lemma_days_before_month_bounds(y, m - 1);
    }
}

/// The twelve months of a year sum to its day count.
proof fn lemma_months_sum(y: int)
    ensures
        days_before_month(y, 12) + 31 == spec_days_in_year(y),
        days_before_month(y, 13) == spec_days_in_year(y),
{
    reveal_with_fuel(days_before_month, 14);
}

proof fn lemma_days_before_month_monotonic(y: int, m1: int, m2: int)
    requires
        1 <= m1 <= m2,
    ensures
        days_before_month(y, m1) <= days_before_month(y, m2),
    decreases m2 - m1,
{
    if m1 < m2 {
        lemma_days_before_month_monotonic(y, m1, m2 - 1);
    }
}

/// Exec mirror of `spec_is_leap_year`.
pub fn is_leap_year(y: i32) -> (r: bool)
    requires
        y >= 1,
    ensures
        r == spec_is_leap_year(y as int),
{
    (y % 4 == 0 && y % 100 != 0) || y % 400 == 0
}

/// Exec mirror of `spec_days_in_month`.
pub fn days_in_month(y: i32, m: u32) -> (r: u32)
    requires
        y >= 1,
        1 <= m <= 12,
    ensures
        r as int == spec_days_in_month(y as int, m as int),
{
    if m == 2 {
        if is_leap_year(y) {
            29
        } else {
            28
        }
    } else if m == 4 || m == 6 || m == 9 || m == 11 {
        30
    } else {
        31
    }
}

fn days_in_year(y: i32) -> (r: u32)
    requires
        y >= 1,
    ensures
        r as int == spec_days_in_year(y as int),
{
    if is_leap_year(y) {
        366
    } else {
        365
    }
}

/// A calendar date, valid by construction when obtained through `Date::new`
/// or the navigation functions.
#[derive(Clone, Copy, Debug, PartialEq, Eq, Structural)]
pub struct Date {
    pub year: i32,
    pub month: u32,
    pub day: u32,
}

impl Date {
    /// Year of the date.
    pub open spec fn spec_year(self) -> int {
        self.year as int
    }

    /// Month of the date, `1` through `12`.
    pub open spec fn spec_month(self) -> int {
        self.month as int
    }

    /// Day of the month, one-based.
    pub open spec fn spec_day(self) -> int {
        self.day as int
    }

    /// The date names a day of the supported calendar.
    pub open spec fn is_valid(self) -> bool {
        valid_ymd(self.spec_year(), self.spec_month(), self.spec_day())
    }

    /// Days since `MIN_YEAR`-01-01.
    pub open spec fn spec_day_number(self) -> int {
        day_number_of(self.spec_year(), self.spec_month(), self.spec_day())
    }

    /// One-based day of the year.
    pub open spec fn spec_ordinal(self) -> int {
        ordinal_of(self.spec_year(), self.spec_month(), self.spec_day())
    }

    /// Weekday of the date; `MIN_YEAR`-01-01 is a Monday.
    pub open spec fn spec_weekday(self) -> Weekday {
        weekday_from_index(self.spec_day_number() % 7)
    }

    /// Build a date, `None` when the components do not name a day.
    pub fn new(year: i32, month: u32, day: u32) -> (r: Option<Date>)
        ensures
            r is Some <==> valid_ymd(year as int, month as int, day as int),
            r matches Some(d) ==> d == (Date { year, month, day }),
    {
        if MIN_YEAR <= year && year <= MAX_YEAR && 1 <= month && month <= 12 && 1 <= day && day
            <= days_in_month(year, month) {
            Some(Date { year, month, day })
        } else {
            None
        }
    }

    /// Year of the date.
    pub fn year(self) -> (r: i32)
        ensures
            r as int == self.spec_year(),
    {
        self.year
    }

    /// Month of the date, `1` through `12`.
    pub fn month(self) -> (r: u32)
        ensures
            r as int == self.spec_month(),
    {
        self.month
    }

    /// Day of the month, one-based.
    pub fn day(self) -> (r: u32)
        ensures
            r as int == self.spec_day(),
    {
        self.day
    }

    /// Zero-based day of the month.
    pub fn day0(self) -> (r: u32)
        requires
            self.is_valid(),
        ensures
            r as int == self.spec_day() - 1,
    {
        self.day - 1
    }

    /// Days since `MIN_YEAR`-01-01.
    pub fn day_number(self) -> (n: u32)
        requires
            self.is_valid(),
        ensures
            n as int == self.spec_day_number(),
    {
        let mut acc: u32 = 0;
        let mut y: i32 = MIN_YEAR;
        while y < self.year
            invariant
                self.is_valid(),
                MIN_YEAR <= y <= self.year,
                acc as int == days_before_year(y as int),
            decreases self.year - y,
        {
            proof {
                lemma_days_before_year_bounds(y as int);
            }
            acc = acc + days_in_year(y);
            y = y + 1;
        }
        proof {
            lemma_days_before_year_bounds(self.year as int);
        }
        let mut m: u32 = 1;
        while m < self.month
            invariant
                self.is_valid(),
                1 <= m <= self.month,
                acc as int == days_before_year(self.year as int) + days_before_month(
                    self.year as int,
                    m as int,
                ),
                days_before_year(self.year as int) <= 366 * 9999,
            decreases self.month - m,
        {
            proof {
                lemma_days_before_month_bounds(self.year as int, m as int);
            }
            acc = acc + days_in_month(self.year, m);
            m = m + 1;
        }
        proof {
            lemma_days_before_month_bounds(self.year as int, self.month as int);
        }
        acc + (self.day - 1)
    }

    /// One-based day of the year.
    pub fn ordinal(self) -> (n: u32)
        requires
            self.is_valid(),
        ensures
            n as int == self.spec_ordinal(),
            1 <= n <= 366,
    {
        let mut acc: u32 = 0;
        let mut m: u32 = 1;
        while m < self.month
            invariant
                self.is_valid(),
                1 <= m <= self.month,
                acc as int == days_before_month(self.year as int, m as int),
                acc <= 31 * 12,
            decreases self.month - m,
        {
            proof {
                lemma_days_before_month_bounds(self.year as int, (m + 1) as int);
            }
            acc = acc + days_in_month(self.year, m);
            m = m + 1;
        }
        proof {
            lemma_days_before_month_bounds(self.year as int, self.month as int);
            lemma_months_sum(self.year as int);
            lemma_days_before_month_monotonic(
                self.year as int,
                (self.month + 1) as int,
                13,
            );
        }
        acc + self.day
    }

    /// There is a later day in the supported calendar.
    pub open spec fn has_next(self) -> bool {
        !(self.spec_year() == MAX_YEAR && self.spec_month() == 12 && self.spec_day() == 31)
    }

    /// There is an earlier day in the supported calendar.
    pub open spec fn has_prev(self) -> bool {
        !(self.spec_year() == MIN_YEAR && self.spec_month() == 1 && self.spec_day() == 1)
    }

    /// The following day.
    pub fn next(self) -> (r: Date)
        requires
            self.is_valid(),
            self.has_next(),
        ensures
            r.is_valid(),
            r.spec_day_number() == self.spec_day_number() + 1,
    {
        if self.day < days_in_month(self.year, self.month) {
            Date { year: self.year, month: self.month, day: self.day + 1 }
        } else if self.month < 12 {
            assert(days_before_month(self.spec_year(), self.spec_month() + 1)
                == days_before_month(self.spec_year(), self.spec_month()) + spec_days_in_month(
                self.spec_year(),
                self.spec_month(),
            ));
            Date { year: self.year, month: self.month + 1, day: 1 }
        } else {
            proof {
                lemma_months_sum(self.spec_year());
                assert(days_before_year(self.spec_year() + 1) == days_before_year(self.spec_year())
                    + spec_days_in_year(self.spec_year()));
            }
            Date { year: self.year + 1, month: 1, day: 1 }
        }
    }

    /// The preceding day.
    pub fn prev(self) -> (r: Date)
        requires
            self.is_valid(),
            self.has_prev(),
        ensures
            r.is_valid(),
            r.spec_day_number() == self.spec_day_number() - 1,
    {
        if self.day > 1 {
            Date { year: self.year, month: self.month, day: self.day - 1 }
        } else if self.month > 1 {
            assert(days_before_month(self.spec_year(), self.spec_month())
                == days_before_month(self.spec_year(), self.spec_month() - 1) + spec_days_in_month(
                self.spec_year(),
                self.spec_month() - 1,
            ));
            Date { year: self.year, month: self.month - 1, day: days_in_month(
                self.year,
                self.month - 1,
            ) }
        } else {
            proof {
                lemma_months_sum(self.spec_year() - 1);
                assert(days_before_year(self.spec_year()) == days_before_year(self.spec_year() - 1)
                    + spec_days_in_year(self.spec_year() - 1));
            }
            Date { year: self.year - 1, month: 12, day: 31 }
        }
    }

    /// The date with the given day number; inverse of `day_number`.
    pub fn from_day_number(n: u32) -> (r: Date)
        requires
            (n as int) < days_before_year(MAX_YEAR + 1),
        ensures
            r.is_valid(),
            r.spec_day_number() == n as int,
    {
        let mut y: i32 = MIN_YEAR;
        let mut acc: u32 = 0;
        proof {
            lemma_days_before_year_bounds(MAX_YEAR + 1);
        }
        loop
            invariant
                MIN_YEAR <= y <= MAX_YEAR,
                acc as int == days_before_year(y as int),
                acc <= n,
                (n as int) < days_before_year(MAX_YEAR + 1),
            ensures
                MIN_YEAR <= y <= MAX_YEAR,
                acc as int == days_before_year(y as int),
                (acc as int) <= (n as int) < (acc as int) + spec_days_in_year(y as int),
            decreases MAX_YEAR - y,
        {
            proof {
                lemma_days_before_year_bounds(y as int);
            }
            let dy = days_in_year(y);
            if n < acc + dy {
                break ;
            }
            proof {
                if y == MAX_YEAR {
                    assert(days_before_year(MAX_YEAR + 1) == days_before_year(MAX_YEAR as int)
                        + spec_days_in_year(MAX_YEAR as int));
                    assert(false);
                }
            }
            acc = acc + dy;
            y = y + 1;
        }
        let mut m: u32 = 1;
        loop
            invariant
                MIN_YEAR <= y <= MAX_YEAR,
                1 <= m <= 12,
                acc as int == days_before_year(y as int) + days_before_month(y as int, m as int),
                acc <= n,
                (n as int) < days_before_year(y as int) + spec_days_in_year(y as int),
                days_before_year(y as int) <= 366 * (MAX_YEAR as int),
            ensures
                1 <= m <= 12,
                acc as int == days_before_year(y as int) + days_before_month(y as int, m as int),
                (acc as int) <= (n as int) < (acc as int) + spec_days_in_month(y as int, m as int),
            decreases 12 - m,
        {
            proof {
                lemma_days_before_month_bounds(y as int, m as int);
            }
            let dm = days_in_month(y, m);
            if n < acc + dm {
                break ;
            }
            proof {
                if m == 12 {
                    lemma_months_sum(y as int);
                    assert(false);
                }
            }
            acc = acc + dm;
            m = m + 1;
        }
        Date { year: y, month: m, day: n - acc + 1 }
    }

    /// Weekday of the date; `MIN_YEAR`-01-01 is a Monday.
    pub fn weekday(self) -> (w: Weekday)
        requires
            self.is_valid(),
        ensures
            w == self.spec_weekday(),
            weekday_index(w) == self.spec_day_number() % 7,
    {
        let n = self.day_number() % 7;
        if n == 0 {
            Weekday::Monday
        } else if n == 1 {
            Weekday::Tuesday
        } else if n == 2 {
            Weekday::Wednesday
        } else if n == 3 {
            Weekday::Thursday
        } else if n == 4 {
            Weekday::Friday
        } else if n == 5 {
            Weekday::Saturday
        } else {
            Weekday::Sunday
        }
    }
}

/// A calendar month of a given year.
#[derive(Clone, Copy, Debug, PartialEq, Eq, Structural)]
pub struct Month {
    pub year: i32,
    pub month: u32,
}

impl Month {
    /// The month names a month of the supported calendar.
    pub open spec fn is_valid(self) -> bool {
        MIN_YEAR <= self.year as int <= MAX_YEAR && 1 <= self.month as int <= 12
    }

    /// Build a month, `None` when out of the supported calendar.
    pub fn new(year: i32, month: u32) -> (r: Option<Month>)
        ensures
            r is Some <==> (MIN_YEAR <= year <= MAX_YEAR && 1 <= month <= 12),
            r matches Some(m) ==> m == (Month { year, month }) && m.is_valid(),
    {
        if MIN_YEAR <= year && year <= MAX_YEAR && 1 <= month && month <= 12 {
            Some(Month { year, month })
        } else {
            None
        }
    }

    /// The month a date falls in.
    pub fn of_date(date: Date) -> (r: Month)
        requires
            date.is_valid(),
        ensures
            r == (Month { year: date.year, month: date.month }),
            r.is_valid(),
    {
        Month { year: date.year, month: date.month }
    }

    /// Year the month belongs to.
    pub fn year(self) -> (r: Year)
        ensures
            r == (Year { year: self.year }),
    {
        Year { year: self.year }
    }

    /// Number of days in the month, leap Februaries included.
    pub fn num_days(self) -> (r: u32)
        requires
            self.is_valid(),
        ensures
            r as int == spec_days_in_month(self.year as int, self.month as int),
    {
        days_in_month(self.year, self.month)
    }

    /// First day of the month.
    pub fn first(self) -> (r: Date)
        requires
            self.is_valid(),
        ensures
            r == (Date { year: self.year, month: self.month, day: 1 }),
            r.is_valid(),
    {
        Date { year: self.year, month: self.month, day: 1 }
    }

    /// Last day of the month.
    pub fn last(self) -> (r: Date)
        requires
            self.is_valid(),
        ensures
            r.year == self.year && r.month == self.month,
            r.spec_day() == spec_days_in_month(self.year as int, self.month as int),
            r.is_valid(),
    {
        Date { year: self.year, month: self.month, day: days_in_month(self.year, self.month) }
    }

    /// The month `n` months later.
    pub fn plus_months(self, n: u32) -> (r: Month)
        requires
            self.is_valid(),
            self.year as int * 12 + (self.month as int - 1) + n as int <= MAX_YEAR as int * 12 + 11,
        ensures
            r.is_valid(),
            r.year as int * 12 + r.month as int == self.year as int * 12 + self.month as int
                + n as int,
    {
        let t: i64 = self.year as i64 * 12 + (self.month as i64 - 1) + n as i64;
        proof {
            vstd::arithmetic::div_mod::lemma_fundamental_div_mod(t as int, 12);
        }
        Month { year: (t / 12) as i32, month: (t % 12) as u32 + 1 }
    }

    /// The month `n` months earlier.
    pub fn minus_months(self, n: u32) -> (r: Month)
        requires
            self.is_valid(),
            MIN_YEAR as int * 12 <= self.year as int * 12 + (self.month as int - 1) - n as int,
        ensures
            r.is_valid(),
            r.year as int * 12 + r.month as int == self.year as int * 12 + self.month as int
                - n as int,
    {
        let t: i64 = self.year as i64 * 12 + (self.month as i64 - 1) - n as i64;
        proof {
            vstd::arithmetic::div_mod::lemma_fundamental_div_mod(t as int, 12);
        }
        Month { year: (t / 12) as i32, month: (t % 12) as u32 + 1 }
    }

    /// The following month.
    pub fn next(self) -> (r: Month)
        requires
            self.is_valid(),
            !(self.year == MAX_YEAR && self.month == 12),
        ensures
            r.is_valid(),
            r.year as int * 12 + r.month as int == self.year as int * 12 + self.month as int + 1,
            r == (if self.month < 12 {
                Month { year: self.year, month: (self.month + 1) as u32 }
            } else {
                Month { year: (self.year + 1) as i32, month: 1 }
            }),
    {
        if self.month < 12 {
            Month { year: self.year, month: self.month + 1 }
        } else {
            Month { year: self.year + 1, month: 1 }
        }
    }

    /// The preceding month.
    pub fn prev(self) -> (r: Month)
        requires
            self.is_valid(),
            !(self.year == MIN_YEAR && self.month == 1),
        ensures
            r.is_valid(),
            r.year as int * 12 + r.month as int == self.year as int * 12 + self.month as int - 1,
            r == (if self.month > 1 {
                Month { year: self.year, month: (self.month - 1) as u32 }
            } else {
                Month { year: (self.year - 1) as i32, month: 12 }
            }),
    {
        if self.month > 1 {
            Month { year: self.year, month: self.month - 1 }
        } else {
            Month { year: self.year - 1, month: 12 }
        }
    }
}

/// A calendar year.
#[derive(Clone, Copy, Debug, PartialEq, Eq, Structural)]
pub struct Year {
    pub year: i32,
}

impl Year {
    /// The year lies in the supported calendar.
    pub open spec fn is_valid(self) -> bool {
        MIN_YEAR <= self.year as int <= MAX_YEAR
    }

    /// Build a year from its number.
    pub fn new(year: i32) -> (r: Year)
        ensures
            r == (Year { year }),
    {
        Year { year }
    }

    /// The year a date falls in.
    pub fn of_date(date: Date) -> (r: Year)
        ensures
            r == (Year { year: date.year }),
    {
        Year { year: date.year }
    }

    /// The year's number.
    pub fn value(self) -> (r: i32)
        ensures
            r == self.year,
    {
        self.year
    }

    /// January of the year.
    pub fn first(self) -> (r: Month)
        requires
            self.is_valid(),
        ensures
            r == (Month { year: self.year, month: 1 }),
            r.is_valid(),
    {
        Month { year: self.year, month: 1 }
    }

    /// December of the year.
    pub fn last(self) -> (r: Month)
        requires
            self.is_valid(),
        ensures
            r == (Month { year: self.year, month: 12 }),
            r.is_valid(),
    {
        Month { year: self.year, month: 12 }
    }

    /// The following year.
    pub fn next(self) -> (r: Year)
        requires
            self.year < MAX_YEAR,
        ensures
            r.year == self.year + 1,
    {
        Year { year: self.year + 1 }
    }

    /// The preceding year.
    pub fn prev(self) -> (r: Year)
        requires
            self.year > MIN_YEAR,
        ensures
            r.year == self.year - 1,
    {
        Year { year: self.year - 1 }
    }
}


/// Weekday of January 1st of year `y`, as an index.
pub open spec fn spec_jan1_weekday(y: int) -> int {
    days_before_year(y) % 7
}

/// Number of ISO weeks in ISO year `y`: 52 or 53.
pub open spec fn spec_weeks_in_iso_year(y: int) -> int {
    if spec_jan1_weekday(y) == 3 || (spec_is_leap_year(y) && spec_jan1_weekday(y) == 2) {
        53
    } else {
        52
    }
}

/// ISO year and week of a date, by the week-numbering rule: week 1 is the
/// week holding the year's first Thursday.
pub open spec fn spec_iso_of(y: int, m: int, d: int) -> (int, int) {
    let w = (ordinal_of(y, m, d) + 9 - day_number_of(y, m, d) % 7) / 7;
    if w < 1 {
        (y - 1, spec_weeks_in_iso_year(y - 1))
    } else if w > spec_weeks_in_iso_year(y) {
        (y + 1, 1)
    } else {
        (y, w)
    }
}

/// Day number of the Monday of ISO week `w` of ISO year `y`.
pub open spec fn spec_iso_week_start(y: int, w: int) -> int {
    let jan4 = days_before_year(y) + 3;
    jan4 - jan4 % 7 + 7 * (w - 1)
}

/// An ISO week: a Monday-through-Sunday span with its week-numbering year.
#[derive(Clone, Copy, Debug, PartialEq, Eq, Structural)]
pub struct IsoWeek {
    pub year: i32,
    pub week: u32,
}

impl IsoWeek {
    /// The week exists in its ISO year and lies inside the supported
    /// calendar with a year to spare on both ends.
    pub open spec fn is_valid(self) -> bool {
        &&& MIN_YEAR + 1 <= self.year as int <= MAX_YEAR - 1
        &&& 1 <= self.week as int <= spec_weeks_in_iso_year(self.year as int)
    }

    /// ISO week-numbering year.
    pub fn year(self) -> (r: i32)
        ensures
            r == self.year,
    {
        self.year
    }

    /// Week number within the ISO year, `1` through `53`.
    pub fn week(self) -> (r: u32)
        ensures
            r == self.week,
    {
        self.week
    }
}

fn weeks_in_iso_year(y: i32) -> (r: u32)
    requires
        MIN_YEAR <= y <= MAX_YEAR,
    ensures
        r as int == spec_weeks_in_iso_year(y as int),
        52 <= r <= 53,
{
    let mut acc: u32 = 0;
    let mut i: i32 = MIN_YEAR;
    while i < y
        invariant
            MIN_YEAR <= i <= y <= MAX_YEAR,
            acc as int == days_before_year(i as int) % 7,
        decreases y - i,
    {
        acc = (acc + days_in_year(i) % 7) % 7;
        proof {
            let a = days_before_year(i as int);
            let b = spec_days_in_year(i as int);
            vstd::arithmetic::div_mod::lemma_add_mod_noop(a, b, 7);
        }
        i = i + 1;
    }
    if acc == 3 || (is_leap_year(y) && acc == 2) {
        53
    } else {
        52
    }
}

impl Date {
    /// The ISO week the date falls in.
    pub fn iso_week(self) -> (r: IsoWeek)
        requires
            self.is_valid(),
            MIN_YEAR + 1 <= self.spec_year() <= MAX_YEAR - 1,
        ensures
            (r.year as int, r.week as int) == spec_iso_of(
                self.spec_year(),
                self.spec_month(),
                self.spec_day(),
            ),
    {
        let ordinal = self.ordinal();
        let wd = self.day_number() % 7;
        let w = (ordinal + 9 - wd) / 7;
        if w < 1 {
            IsoWeek { year: self.year - 1, week: weeks_in_iso_year(self.year - 1) }
        } else {
            let wiy = weeks_in_iso_year(self.year);
            if w > wiy {
                IsoWeek { year: self.year + 1, week: 1 }
            } else {
                IsoWeek { year: self.year, week: w }
            }
        }
    }
}


proof fn lemma_day_number_year_range(d: Date)
    requires
        d.is_valid(),
    ensures
        days_before_year(d.spec_year()) <= d.spec_day_number() < days_before_year(
            d.spec_year() + 1,
        ),
{
    lemma_days_before_month_bounds(d.spec_year(), d.spec_month());
    lemma_months_sum(d.spec_year());
    lemma_days_before_month_monotonic(d.spec_year(), d.spec_month() + 1, 13);
    assert(days_before_month(d.spec_year(), d.spec_month() + 1) == days_before_month(
        d.spec_year(),
        d.spec_month(),
    ) + spec_days_in_month(d.spec_year(), d.spec_month()));
    assert(days_before_year(d.spec_year() + 1) == days_before_year(d.spec_year())
        + spec_days_in_year(d.spec_year()));
}

/// Stepping to the following ISO week moves the week's Monday forward by
/// exactly seven days, across year boundaries included.
pub proof fn lemma_iso_week_start_step(y: int, w: int)
    requires
        MIN_YEAR <= y < MAX_YEAR,
        1 <= w <= spec_weeks_in_iso_year(y),
    ensures
        w < spec_weeks_in_iso_year(y) ==> spec_iso_week_start(y, w) + 7 == spec_iso_week_start(
            y,
            w + 1,
        ),
        w == spec_weeks_in_iso_year(y) ==> spec_iso_week_start(y, w) + 7 == spec_iso_week_start(
            y + 1,
            1,
        ),
{
    if w == spec_weeks_in_iso_year(y) {
        let a = days_before_year(y) + 3;
        let diy = spec_days_in_year(y);
        assert(days_before_year(y + 1) == days_before_year(y) + diy);
        let b = a + diy;
        lemma_days_before_year_bounds(y);
        vstd::arithmetic::div_mod::lemma_fundamental_div_mod(a, 7);
        vstd::arithmetic::div_mod::lemma_mod_bound(a, 7);
        let qa = a / 7;
        let r = a % 7;
        if r >= 3 {
            vstd::arithmetic::div_mod::lemma_fundamental_div_mod_converse(a - 3, 7, qa, r - 3);
        } else {
            vstd::arithmetic::div_mod::lemma_fundamental_div_mod_converse(a - 3, 7, qa - 1, r + 4);
        }
        if r + (diy - 364) < 7 {
            vstd::arithmetic::div_mod::lemma_fundamental_div_mod_converse(
                b,
                7,
                qa + 52,
                r + (diy - 364),
            );
        } else {
            vstd::arithmetic::div_mod::lemma_fundamental_div_mod_converse(
                b,
                7,
                qa + 53,
                r + (diy - 364) - 7,
            );
        }
    }
}

impl IsoWeek {
    /// The ISO week a date falls in; same as `Date::iso_week`.
    pub fn of_date(date: Date) -> (r: IsoWeek)
        requires
            date.is_valid(),
            MIN_YEAR + 1 <= date.spec_year() <= MAX_YEAR - 1,
        ensures
            (r.year as int, r.week as int) == spec_iso_of(
                date.spec_year(),
                date.spec_month(),
                date.spec_day(),
            ),
    {
        date.iso_week()
    }

    /// Monday of the week.
    pub fn first(self) -> (r: Date)
        requires
            self.is_valid(),
        ensures
            r.is_valid(),
            r.spec_day_number() == spec_iso_week_start(self.year as int, self.week as int),
    {
        proof {
            lemma_days_before_year_bounds(self.year as int);
            lemma_days_before_year_monotonic(self.year as int + 2, MAX_YEAR + 1);
            lemma_days_before_year_bounds(self.year as int + 2);
            assert(days_before_year(self.year as int + 2) == days_before_year(self.year as int + 1)
                + spec_days_in_year(self.year as int + 1));
            assert(days_before_year(self.year as int + 1) == days_before_year(self.year as int)
                + spec_days_in_year(self.year as int));
            vstd::arithmetic::div_mod::lemma_mod_bound(days_before_year(self.year as int) + 3, 7);
        }
        let jan4: u32 = Date { year: self.year, month: 1, day: 4 }.day_number();
        Date::from_day_number(jan4 - jan4 % 7 + 7 * (self.week - 1))
    }

    /// Sunday of the week.
    pub fn last(self) -> (r: Date)
        requires
            self.is_valid(),
        ensures
            r.is_valid(),
            r.spec_day_number() == spec_iso_week_start(self.year as int, self.week as int) + 6,
    {
        proof {
            lemma_days_before_year_bounds(self.year as int);
            lemma_days_before_year_monotonic(self.year as int + 2, MAX_YEAR + 1);
            lemma_days_before_year_bounds(self.year as int + 2);
            assert(days_before_year(self.year as int + 2) == days_before_year(self.year as int + 1)
                + spec_days_in_year(self.year as int + 1));
            assert(days_before_year(self.year as int + 1) == days_before_year(self.year as int)
                + spec_days_in_year(self.year as int));
            vstd::arithmetic::div_mod::lemma_mod_bound(days_before_year(self.year as int) + 3, 7);
        }
        let jan4: u32 = Date { year: self.year, month: 1, day: 4 }.day_number();
        Date::from_day_number(jan4 - jan4 % 7 + 7 * (self.week - 1) + 6)
    }

    /// The following ISO week; its Monday is seven days later.
    pub fn next(self) -> (r: IsoWeek)
        requires
            self.is_valid(),
            self.year as int + 1 <= MAX_YEAR - 1,
        ensures
            r.is_valid(),
            spec_iso_week_start(r.year as int, r.week as int) == spec_iso_week_start(
                self.year as int,
                self.week as int,
            ) + 7,
            r == (if (self.week as int) < spec_weeks_in_iso_year(self.year as int) {
                IsoWeek { year: self.year, week: (self.week + 1) as u32 }
            } else {
                IsoWeek { year: (self.year + 1) as i32, week: 1 }
            }),
    {
        proof {
            lemma_iso_week_start_step(self.year as int, self.week as int);
        }
        let wiy = weeks_in_iso_year(self.year);
        if self.week < wiy {
            IsoWeek { year: self.year, week: self.week + 1 }
        } else {
            IsoWeek { year: self.year + 1, week: 1 }
        }
    }

    /// The preceding ISO week; its Monday is seven days earlier.
    pub fn prev(self) -> (r: IsoWeek)
        requires
            self.is_valid(),
            MIN_YEAR + 1 <= self.year as int - 1,
        ensures
            r.is_valid(),
            spec_iso_week_start(r.year as int, r.week as int) == spec_iso_week_start(
                self.year as int,
                self.week as int,
            ) - 7,
            r == (if self.week > 1 {
                IsoWeek { year: self.year, week: (self.week - 1) as u32 }
            } else {
                IsoWeek {
                    year: (self.year - 1) as i32,
                    week: spec_weeks_in_iso_year(self.year as int - 1) as u32,
                }
            }),
    {
        if self.week > 1 {
            proof {
                lemma_iso_week_start_step(self.year as int, self.week as int - 1);
            }
            IsoWeek { year: self.year, week: self.week - 1 }
        } else {
            let wiy = weeks_in_iso_year(self.year - 1);
            proof {
                lemma_iso_week_start_step(
                    self.year as int - 1,
                    spec_weeks_in_iso_year(self.year as int - 1),
                );
            }
            IsoWeek { year: self.year - 1, week: wiy }
        }
    }
}

/// A validated one-based day of a month, `1` through `31`.
#[derive(Clone, Copy, Debug, PartialEq, Eq, Structural)]
pub struct Monthday {
    value: u32,
}

/// The rejected value of a failed `Monthday` construction.
#[derive(Clone, Copy, Debug, PartialEq, Eq, Structural)]
pub struct InvalidMonthday {
    pub value: u32,
}

impl Monthday {
    /// The day number the value was built from.
    pub closed spec fn spec_value(self) -> int {
        self.value as int
    }

    /// Build a validated day of the month; out of range fails.
    pub fn new(index: u32) -> (r: Result<Monthday, InvalidMonthday>)
        ensures
            r is Ok <==> 1 <= index <= 31,
            r matches Ok(m) ==> m.spec_value() == index as int,
            r matches Err(e) ==> e.value == index,
    {
        if index > 0 && index < 32 {
            Ok(Monthday { value: index })
        } else {
            Err(InvalidMonthday { value: index })
        }
    }

    /// The day number, `1` through `31`.
    pub fn value(self) -> (r: u32)
        ensures
            r as int == self.spec_value(),
    {
        self.value
    }
}

/// A validated one-based day of a year, `1` through `366`.
#[derive(Clone, Copy, Debug, PartialEq, Eq, Structural)]
pub struct Yearday {
    value: u32,
}

/// The rejected value of a failed `Yearday` construction.
#[derive(Clone, Copy, Debug, PartialEq, Eq, Structural)]
pub struct InvalidYearday {
    pub value: u32,
}

impl Yearday {
    /// The day number the value was built from.
    pub closed spec fn spec_value(self) -> int {
        self.value as int
    }

    /// Build a validated day of the year; out of range fails.
    pub fn new(index: u32) -> (r: Result<Yearday, InvalidYearday>)
        ensures
            r is Ok <==> 1 <= index <= 366,
            r matches Ok(m) ==> m.spec_value() == index as int,
            r matches Err(e) ==> e.value == index,
    {
        if index > 0 && index < 367 {
            Ok(Yearday { value: index })
        } else {
            Err(InvalidYearday { value: index })
        }
    }

    /// The day number, `1` through `366`.
    pub fn value(self) -> (r: u32)
        ensures
            r as int == self.spec_value(),
    {
        self.value
    }
}

/// Two valid dates with one day number are the same date.
pub proof fn lemma_date_unique(a: Date, b: Date)
    requires
        a.is_valid(),
        b.is_valid(),
        a.spec_day_number() == b.spec_day_number(),
    ensures
        a == b,
{
    lemma_day_number_year_range(a);
    lemma_day_number_year_range(b);
    if a.spec_year() < b.spec_year() {
        lemma_days_before_year_monotonic(a.spec_year() + 1, b.spec_year());
        assert(false);
    }
    if b.spec_year() < a.spec_year() {
        lemma_days_before_year_monotonic(b.spec_year() + 1, a.spec_year());
        assert(false);
    }
    let y = a.spec_year();
    lemma_days_before_month_bounds(y, a.spec_month());
    lemma_days_before_month_bounds(y, b.spec_month());
    if a.spec_month() < b.spec_month() {
        assert(days_before_month(y, a.spec_month() + 1) == days_before_month(y, a.spec_month())
            + spec_days_in_month(y, a.spec_month()));
        lemma_days_before_month_monotonic(y, a.spec_month() + 1, b.spec_month());
        assert(false);
    }
    if b.spec_month() < a.spec_month() {
        assert(days_before_month(y, b.spec_month() + 1) == days_before_month(y, b.spec_month())
            + spec_days_in_month(y, b.spec_month()));
        lemma_days_before_month_monotonic(y, b.spec_month() + 1, a.spec_month());
        assert(false);
    }
}

/// The valid date with the given day number.
pub open spec fn spec_date_of_dn(n: int) -> Date {
    choose|d: Date| d.is_valid() && d.spec_day_number() == n
}

/// A valid date is the date of its own day number.
pub proof fn lemma_date_of_dn(d: Date)
    requires
        d.is_valid(),
    ensures
        spec_date_of_dn(d.spec_day_number()) == d,
{
    let n = d.spec_day_number();
    assert(d.is_valid() && d.spec_day_number() == n);
    let c = choose|x: Date| x.is_valid() && x.spec_day_number() == n;
    lemma_date_unique(c, d);
}

/// A day of a valid ISO week, the week's year away from the calendar's
/// ends, lies in a neighbouring calendar year and has neighbours itself.
pub proof fn lemma_iso_week_day_year_bounds(w: IsoWeek, i: int, d: Date)
    requires
        w.is_valid(),
        MIN_YEAR + 2 <= w.year as int <= MAX_YEAR - 2,
        0 <= i < 7,
        d.is_valid(),
        d.spec_day_number() == spec_iso_week_start(w.year as int, w.week as int) + i,
    ensures
        MIN_YEAR < d.spec_year() < MAX_YEAR,
        d.has_next(),
        d.has_prev(),
{
    let y = w.year as int;
    let a = days_before_year(y) + 3;
    lemma_days_before_year_bounds(y);
    vstd::arithmetic::div_mod::lemma_mod_bound(a, 7);
    vstd::arithmetic::div_mod::lemma_fundamental_div_mod(a, 7);
    let n = d.spec_day_number();
    lemma_day_number_year_range(d);
    assert(days_before_year(y) == days_before_year(y - 1) + spec_days_in_year(y - 1));
    assert(n >= days_before_year(y - 1));
    if d.spec_year() <= y - 2 {
        lemma_days_before_year_monotonic(d.spec_year() + 1, y - 1);
        assert(false);
    }
    assert(days_before_year(y + 2) == days_before_year(y + 1) + spec_days_in_year(y + 1));
    assert(days_before_year(y + 1) == days_before_year(y) + spec_days_in_year(y));
    assert(n < days_before_year(y + 2));
    if d.spec_year() >= y + 2 {
        lemma_days_before_year_monotonic(y + 2, d.spec_year());
        assert(false);
    }
}

impl IsoWeek {
    /// The seven days of the week, Monday through Sunday.
    pub fn days(self) -> (r: Vec<Date>)
        requires
            self.is_valid(),
            MIN_YEAR + 2 <= self.year as int <= MAX_YEAR - 2,
        ensures
            r@.len() == 7,
            forall|i: int|
                0 <= i < 7 ==> (#[trigger] r@[i]).is_valid() && r@[i].spec_day_number()
                    == spec_iso_week_start(self.year as int, self.week as int) + i,
    {
        let mut r: Vec<Date> = Vec::new();
        let mut d = self.first();
        let mut i: usize = 0;
        while i < 7
            invariant
                i <= 7,
                self.is_valid(),
                MIN_YEAR + 2 <= self.year as int <= MAX_YEAR - 2,
                d.is_valid(),
                i < 7 ==> d.spec_day_number() == spec_iso_week_start(
                    self.year as int,
                    self.week as int,
                ) + i,
                r@.len() == i,
                forall|j: int|
                    0 <= j < i ==> (#[trigger] r@[j]).is_valid() && r@[j].spec_day_number()
                        == spec_iso_week_start(self.year as int, self.week as int) + j,
            decreases 7 - i,
        {
            proof {
                lemma_iso_week_day_year_bounds(self, i as int, d);
            }
            r.push(d);
            i = i + 1;
            if i < 7 {
                d = d.next();
            }
        }
        r
    }
}

impl Month {
    /// The days of the month, in order.
    pub fn days(self) -> (r: Vec<Date>)
        requires
            self.is_valid(),
        ensures
            r@.len() == spec_days_in_month(self.year as int, self.month as int),
            forall|i: int|
                0 <= i < r@.len() ==> r@[i] == (Date {
                    year: self.year,
                    month: self.month,
                    day: (i + 1) as u32,
                }),
    {
        let n = self.num_days();
        let mut r: Vec<Date> = Vec::new();
        let mut d: u32 = 1;
        while d <= n
            invariant
                1 <= d <= n + 1,
                n as int == spec_days_in_month(self.year as int, self.month as int),
                r@.len() == d - 1,
                forall|i: int|
                    0 <= i < r@.len() ==> r@[i] == (Date {
                        year: self.year,
                        month: self.month,
                        day: (i + 1) as u32,
                    }),
            decreases n + 1 - d,
        {
            r.push(Date { year: self.year, month: self.month, day: d });
            d = d + 1;
        }
        r
    }
}

impl Year {
    /// The twelve months of the year, in order.
    pub fn months(self) -> (r: Vec<Month>)
        ensures
            r@.len() == 12,
            forall|i: int|
                0 <= i < 12 ==> r@[i] == (Month { year: self.year, month: (i + 1) as u32 }),
    {
        let mut r: Vec<Month> = Vec::new();
        let mut m: u32 = 1;
        while m <= 12
            invariant
                1 <= m <= 13,
                r@.len() == m - 1,
                forall|i: int|
                    0 <= i < r@.len() ==> r@[i] == (Month {
                        year: self.year,
                        month: (i + 1) as u32,
                    }),
            decreases 13 - m,
        {
            r.push(Month { year: self.year, month: m });
            m = m + 1;
        }
        r
    }
}

proof fn lemma_div7_at(x: int, q: int, rr: int)
    requires
        x == 7 * q + rr,
        0 <= rr < 7,
    ensures
        x / 7 == q,
        x % 7 == rr,
{
    vstd::arithmetic::div_mod::lemma_fundamental_div_mod_converse(x, 7, q, rr);
}

/// Every day of an ISO week is assigned back to that week by the
/// week-of-date computation: the two directions of the week arithmetic
/// agree.
#[verifier::rlimit(60)]
pub proof fn lemma_iso_of_week_day(w: IsoWeek, i: int, d: Date)
    requires
        w.is_valid(),
        MIN_YEAR + 2 <= w.year as int <= MAX_YEAR - 2,
        0 <= i < 7,
        d.is_valid(),
        d.spec_day_number() == spec_iso_week_start(w.year as int, w.week as int) + i,
    ensures
        spec_iso_of(d.spec_year(), d.spec_month(), d.spec_day()) == (
            w.year as int,
            w.week as int,
        ),
{
    let y = w.year as int;
    let wk = w.week as int;
    let a = days_before_year(y) + 3;
    lemma_days_before_year_bounds(y);
    vstd::arithmetic::div_mod::lemma_fundamental_div_mod(a, 7);
    vstd::arithmetic::div_mod::lemma_mod_bound(a, 7);
    let qa = a / 7;
    let r = a % 7;
    let dn = d.spec_day_number();
    assert(dn == a - r + 7 * (wk - 1) + i);
    lemma_div7_at(dn, qa + wk - 1, i);
    let yy = d.spec_year();
    lemma_day_number_year_range(d);
    assert(d.spec_ordinal() == dn - days_before_year(yy) + 1);
    let diy0 = spec_days_in_year(y - 1);
    let diy = spec_days_in_year(y);
    assert(days_before_year(y) == days_before_year(y - 1) + diy0);
    assert(days_before_year(y + 1) == days_before_year(y) + diy);
    assert(days_before_year(y + 2) == days_before_year(y + 1) + spec_days_in_year(y + 1));
    // Weeks in year `y` follow from the weekday of its January 1st.
    let j = spec_jan1_weekday(y);
    if r >= 3 {
        lemma_div7_at(a - 3, qa, r - 3);
        assert(j == r - 3);
    } else {
        lemma_div7_at(a - 3, qa - 1, r + 4);
        assert(j == r + 4);
    }
    if dn < days_before_year(y) {
        // The day falls in the previous calendar year: this is week 1
        // spilling into late December.
        assert(3 - r + 7 * (wk - 1) + i < 0);
        assert(wk == 1);
        assert(i < r - 3);
        assert(yy == y - 1) by {
            if yy >= y {
                lemma_days_before_year_monotonic(y, yy);
            }
            if yy <= y - 2 {
                lemma_days_before_year_monotonic(yy + 1, y - 1);
                assert(dn >= days_before_year(y) - 6);
                assert(false);
            }
        }
        let x = d.spec_ordinal() + 9 - dn % 7;
        assert(x == diy0 + 13 - r);
        if diy0 == 365 {
            lemma_div7_at(x, 53, 7 - r);
        } else {
            lemma_div7_at(x, 53, 8 - r);
        }
        assert(x / 7 == 53);
        // The previous year has 52 weeks, so week 53 rolls over to
        // `(y, 1)`.
        let j0 = spec_jan1_weekday(y - 1);
        assert(days_before_year(y - 1) == a - 3 - diy0);
        if diy0 == 365 {
            lemma_div7_at(a - 3 - diy0, qa - 52, r - 4);
            assert(j0 == r - 4);
        } else {
            if r == 4 {
                lemma_div7_at(a - 3 - diy0, qa - 53, 6);
                assert(j0 == 6);
            } else {
                lemma_div7_at(a - 3 - diy0, qa - 52, r - 5);
                assert(j0 == r - 5);
            }
        }
        assert(spec_weeks_in_iso_year(y - 1) == 52);
    } else if dn < days_before_year(y + 1) {
        // The ordinary case: the day falls in calendar year `y`.
        assert(yy == y) by {
            if yy <= y - 1 {
                lemma_days_before_year_monotonic(yy + 1, y);
            }
            if yy >= y + 1 {
                lemma_days_before_year_monotonic(y + 1, yy);
            }
        }
        let x = d.spec_ordinal() + 9 - dn % 7;
        assert(x == 13 - r + 7 * (wk - 1));
        lemma_div7_at(x, wk, 6 - r);
        assert(x / 7 == wk);
    } else {
        // The last week of `y` spilling into early January.
        assert(yy == y + 1) by {
            if yy <= y {
                lemma_days_before_year_monotonic(yy + 1, y + 1);
            }
            if yy >= y + 2 {
                lemma_days_before_year_monotonic(y + 2, yy);
                assert(dn < days_before_year(y) + 374);
                assert(false);
            }
        }
        // Only the final week can spill over.
        assert(wk == spec_weeks_in_iso_year(y)) by {
            if wk < spec_weeks_in_iso_year(y) {
                assert(3 - r + 7 * (wk - 1) + i >= diy);
                if spec_weeks_in_iso_year(y) == 52 {
                    assert(7 * (wk - 1) <= 7 * 50);
                    assert(false);
                } else {
                    assert(spec_is_leap_year(y) ==> (j == 3 || j == 2));
                    assert(!spec_is_leap_year(y) ==> j == 3);
                    assert(r >= 5);
                    assert(7 * (wk - 1) <= 7 * 51);
                    assert(false);
                }
            }
        }
        let x = d.spec_ordinal() + 9 - dn % 7;
        assert(x == 13 - r + 7 * (wk - 1) - diy);
        assert(x < 7) by {
            if spec_weeks_in_iso_year(y) == 52 {
                assert(7 * (wk - 1) <= 7 * 51);
            } else {
                assert(spec_is_leap_year(y) ==> (j == 3 || j == 2));
                assert(!spec_is_leap_year(y) ==> j == 3);
                assert(r >= 5);
                assert(7 * (wk - 1) <= 7 * 52);
            }
        }
        assert(x / 7 < 1) by {
            vstd::arithmetic::div_mod::lemma_fundamental_div_mod(x, 7);
            vstd::arithmetic::div_mod::lemma_mod_bound(x, 7);
        }
        // The computation steps back to `(y, weeks_in(y))`.
        assert(spec_iso_of(d.spec_year(), d.spec_month(), d.spec_day()) == (
            y,
            spec_weeks_in_iso_year(y),
        ));
    }
}

} // verus!