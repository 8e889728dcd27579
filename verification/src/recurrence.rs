//! The recurrence rule engine: a typed rule built by validating a loose
//! record, and a predicate deciding whether the rule occurs on a date.

use crate::date::{
    spec_days_in_month, weekday_from_index, weekday_index, Date, InvalidMonthday, InvalidYearday, Month, Monthday,
    Weekday, Yearday,
};
use vstd::prelude::*;

verus! {

/// The top-level category of a recurrence.
#[derive(Clone, Copy, Debug, PartialEq, Eq, Structural)]
pub enum Frequency {
    Daily,
    Weekly,
    Monthly,
    Yearly,
    Once,
}

/// Error of `Frequency::parse`: the name matched no frequency.
#[derive(Clone, Copy, Debug, PartialEq, Eq, Structural)]
pub struct UnknownFrequency {}

/// `c` reads as the lower-case letter `l` when ASCII case is ignored.
pub open spec fn char_matches_lower(c: char, l: char) -> bool {
    c == l || ('a' <= l <= 'z' && c as int == l as int - 32)
}

/// `s` equals the lower-case word `t` when ASCII case is ignored.
pub open spec fn eq_ignore_ascii_case(s: Seq<char>, t: Seq<char>) -> bool {
    s.len() == t.len() && forall|i: int| 0 <= i < s.len() ==> char_matches_lower(s[i], t[i])
}

fn matches_lower(s: &str, t: &str) -> (r: bool)
    ensures
        r == eq_ignore_ascii_case(s@, t@),
{
    let n = s.unicode_len();
    if n != t.unicode_len() {
        return false;
    }
    let mut i: usize = 0;
    while i < n
        invariant
            i <= n,
            n == s@.len() == t@.len(),
            forall|j: int| 0 <= j < i ==> char_matches_lower(s@[j], t@[j]),
        decreases n - i,
    {
        let c = s.get_char(i);
        let l = t.get_char(i);
        if !(c == l || ('a' <= l && l <= 'z' && c as u32 + 32 == l as u32)) {
            return false;
        }
        i = i + 1;
    }
    true
}

/// `Frequency::parse` as a function of the characters.
pub open spec fn spec_parse_frequency(s: Seq<char>) -> Result<Frequency, UnknownFrequency> {
    if eq_ignore_ascii_case(s, "daily"@) {
        Ok(Frequency::Daily)
    } else if eq_ignore_ascii_case(s, "weekly"@) {
        Ok(Frequency::Weekly)
    } else if eq_ignore_ascii_case(s, "monthly"@) {
        Ok(Frequency::Monthly)
    } else if eq_ignore_ascii_case(s, "yearly"@) {
        Ok(Frequency::Yearly)
    } else if eq_ignore_ascii_case(s, "once"@) {
        Ok(Frequency::Once)
    } else {
        Err(UnknownFrequency {  })
    }
}

impl Frequency {
    /// Read a frequency from its name, ASCII case ignored.
    pub fn parse(s: &str) -> (r: Result<Frequency, UnknownFrequency>)
        ensures
            r == spec_parse_frequency(s@),
    {
        if matches_lower(s, "daily") {
            Ok(Frequency::Daily)
        } else if matches_lower(s, "weekly") {
            Ok(Frequency::Weekly)
        } else if matches_lower(s, "monthly") {
            Ok(Frequency::Monthly)
        } else if matches_lower(s, "yearly") {
            Ok(Frequency::Yearly)
        } else if matches_lower(s, "once") {
            Ok(Frequency::Once)
        } else {
            Err(UnknownFrequency {  })
        }
    }

    /// The frequency is `Daily`.
    pub fn is_daily(&self) -> (r: bool)
        ensures
            r == (*self is Daily),
    {
        match self {
            Frequency::Daily => true,
            _ => false,
        }
    }

    /// The frequency is `Weekly`.
    pub fn is_weekly(&self) -> (r: bool)
        ensures
            r == (*self is Weekly),
    {
        match self {
            Frequency::Weekly => true,
            _ => false,
        }
    }

    /// The frequency is `Monthly`.
    pub fn is_monthly(&self) -> (r: bool)
        ensures
            r == (*self is Monthly),
    {
        match self {
            Frequency::Monthly => true,
            _ => false,
        }
    }

    /// The frequency is `Yearly`.
    pub fn is_yearly(&self) -> (r: bool)
        ensures
            r == (*self is Yearly),
    {
        match self {
            Frequency::Yearly => true,
            _ => false,
        }
    }

    /// The frequency is `Once`.
    pub fn is_once(&self) -> (r: bool)
        ensures
            r == (*self is Once),
    {
        match self {
            Frequency::Once => true,
            _ => false,
        }
    }
}

impl core::str::FromStr for Frequency {
    type Err = UnknownFrequency;

    fn from_str(s: &str) -> Result<Frequency, UnknownFrequency> {
        Frequency::parse(s)
    }
}

/// Ordinal selector of a relative-monthly recurrence.
#[derive(Clone, Copy, Debug, PartialEq, Eq, Structural)]
pub enum WeekIndex {
    First,
    Second,
    Third,
    Fourth,
    Last,
}

/// The loose record a configuration block describes a recurrence with;
/// validation turns it into a `Recurrence`.
#[derive(Clone, Debug)]
pub struct SerdeRecurrence {
    pub frequency: Frequency,
    pub weekdays: Vec<Weekday>,
    pub monthdays: Vec<u32>,
    pub yeardays: Vec<u32>,
    pub dates: Vec<Date>,
    pub index: Option<WeekIndex>,
}

/// Why a loose recurrence record was rejected.
#[derive(Clone, Copy, Debug, PartialEq, Eq, Structural)]
pub enum InvalidRecurrence {
    WeekdaysNotAllowed,
    WeekdaysRequired,
    MonthdaysNotAllowed,
    WeekdaysOrMonthdaysRequired,
    YeardaysNotAllowed,
    YeardaysRequired,
    DatesNotAllowed,
    DatesRequired,
    InvalidMonthday(InvalidMonthday),
    InvalidYearday(InvalidYearday),
}

/// A validated recurrence rule; exactly the payload its frequency allows.
#[derive(Clone, Debug)]
pub enum Recurrence {
    Daily,
    /// Weekly on each of the given weekdays.
    Weekly(Vec<Weekday>),
    /// Monthly on each of the given days of the month.
    Monthly(Vec<Monthday>),
    /// Monthly on the n-th occurrence of one of the given weekdays.
    RelativeMonthly(Vec<Weekday>, WeekIndex),
    /// Yearly on each of the given days of the year.
    Yearly(Vec<Yearday>),
    /// Once on each of the given dates.
    Once(Vec<Date>),
}

/// All values lie in `1 ..= bound`.
pub open spec fn all_in_range(v: Seq<u32>, bound: int) -> bool {
    forall|i: int| 0 <= i < v.len() ==> 1 <= #[trigger] v[i] <= bound
}

/// Index of the first value outside `1 ..= bound`.
pub open spec fn first_out_of_range(v: Seq<u32>, bound: int) -> int
    decreases v.len(),
{
    if v.len() == 0 {
        0
    } else if !(1 <= v[0] <= bound) {
        0
    } else {
        1 + first_out_of_range(v.drop_first(), bound)
    }
}

/// The loose record is a well-formed description of a recurrence: exactly
/// the fields its frequency allows are set, required ones are present, and
/// every day value is in range.
pub open spec fn spec_recurrence_ok(s: SerdeRecurrence) -> bool {
    match s.frequency {
        Frequency::Daily => s.weekdays@.len() == 0 && s.monthdays@.len() == 0 && s.yeardays@.len()
            == 0 && s.dates@.len() == 0,
        Frequency::Weekly => s.monthdays@.len() == 0 && s.yeardays@.len() == 0 && s.dates@.len()
            == 0 && s.weekdays@.len() > 0,
        Frequency::Monthly => s.yeardays@.len() == 0 && s.dates@.len() == 0 && (
        if s.weekdays@.len() == 0 {
            s.monthdays@.len() > 0 && all_in_range(s.monthdays@, 31)
        } else {
            true
        }),
        Frequency::Yearly => s.weekdays@.len() == 0 && s.monthdays@.len() == 0 && s.dates@.len()
            == 0 && s.yeardays@.len() > 0 && all_in_range(s.yeardays@, 366),
        Frequency::Once => s.weekdays@.len() == 0 && s.monthdays@.len() == 0 && s.yeardays@.len()
            == 0 && s.dates@.len() > 0,
    }
}

/// The error a rejected record is reported with; meaningful only when
/// `spec_recurrence_ok` fails.
pub open spec fn spec_recurrence_err(s: SerdeRecurrence) -> InvalidRecurrence {
    match s.frequency {
        Frequency::Daily => if s.weekdays@.len() > 0 {
            InvalidRecurrence::WeekdaysNotAllowed
        } else if s.monthdays@.len() > 0 {
            InvalidRecurrence::MonthdaysNotAllowed
        } else if s.yeardays@.len() > 0 {
            InvalidRecurrence::YeardaysNotAllowed
        } else {
            InvalidRecurrence::DatesNotAllowed
        },
        Frequency::Weekly => if s.monthdays@.len() > 0 {
            InvalidRecurrence::MonthdaysNotAllowed
        } else if s.yeardays@.len() > 0 {
            InvalidRecurrence::YeardaysNotAllowed
        } else if s.dates@.len() > 0 {
            InvalidRecurrence::DatesNotAllowed
        } else {
            InvalidRecurrence::WeekdaysRequired
        },
        Frequency::Monthly => if s.yeardays@.len() > 0 {
            InvalidRecurrence::YeardaysNotAllowed
        } else if s.dates@.len() > 0 {
            InvalidRecurrence::DatesNotAllowed
        } else if s.monthdays@.len() == 0 {
            InvalidRecurrence::WeekdaysOrMonthdaysRequired
        } else {
            InvalidRecurrence::InvalidMonthday(
                InvalidMonthday {
                    value: s.monthdays@[first_out_of_range(s.monthdays@, 31)],
                },
            )
        },
        Frequency::Yearly => if s.weekdays@.len() > 0 {
            InvalidRecurrence::WeekdaysNotAllowed
        } else if s.monthdays@.len() > 0 {
            InvalidRecurrence::MonthdaysNotAllowed
        } else if s.dates@.len() > 0 {
            InvalidRecurrence::DatesNotAllowed
        } else if s.yeardays@.len() == 0 {
            InvalidRecurrence::YeardaysRequired
        } else {
            InvalidRecurrence::InvalidYearday(
                InvalidYearday {
                    value: s.yeardays@[first_out_of_range(s.yeardays@, 366)],
                },
            )
        },
        Frequency::Once => if s.weekdays@.len() > 0 {
            InvalidRecurrence::WeekdaysNotAllowed
        } else if s.monthdays@.len() > 0 {
            InvalidRecurrence::MonthdaysNotAllowed
        } else if s.yeardays@.len() > 0 {
            InvalidRecurrence::YeardaysNotAllowed
        } else {
            InvalidRecurrence::DatesRequired
        },
    }
}

proof fn lemma_first_out_of_range(v: Seq<u32>, bound: int)
    requires
        !all_in_range(v, bound),
    ensures
        0 <= first_out_of_range(v, bound) < v.len(),
        !(1 <= v[first_out_of_range(v, bound)] <= bound),
        forall|j: int| 0 <= j < first_out_of_range(v, bound) ==> 1 <= #[trigger] v[j] <= bound,
    decreases v.len(),
{
    if v.len() > 0 && (1 <= v[0] <= bound) {
        assert(!all_in_range(v.drop_first(), bound)) by {
            let k = choose|i: int| 0 <= i < v.len() && !(1 <= #[trigger] v[i] <= bound);
            assert(v.drop_first()[k - 1] == v[k]);
        }
        lemma_first_out_of_range(v.drop_first(), bound);
        let f = first_out_of_range(v.drop_first(), bound);
        assert(v.drop_first()[f] == v[f + 1]);
        assert(forall|j: int| 1 <= j < f + 1 ==> v[j] == v.drop_first()[j - 1]);
    }
}

fn to_monthdays(v: &Vec<u32>) -> (r: Result<Vec<Monthday>, InvalidMonthday>)
    ensures
        r is Ok <==> all_in_range(v@, 31),
        r matches Ok(out) ==> out@.len() == v@.len() && forall|i: int|
            0 <= i < v@.len() ==> #[trigger] out@[i].spec_value() == v@[i],
        r matches Err(e) ==> !all_in_range(v@, 31) && e.value == v@[first_out_of_range(v@, 31)],
{
    let mut out: Vec<Monthday> = Vec::new();
    let mut i: usize = 0;
    while i < v.len()
        invariant
            i <= v@.len(),
            out@.len() == i,
            forall|j: int| 0 <= j < i ==> 1 <= #[trigger] v@[j] <= 31,
            forall|j: int| 0 <= j < i ==> #[trigger] out@[j].spec_value() == v@[j],
        decreases v@.len() - i,
    {
        match Monthday::new(v[i]) {
            Ok(m) => out.push(m),
            Err(e) => {
                proof {
                    lemma_first_out_of_range_prefix(v@, 31, i as int);
                }
                return Err(e);
            },
        }
        i = i + 1;
    }
    Ok(out)
}

fn to_yeardays(v: &Vec<u32>) -> (r: Result<Vec<Yearday>, InvalidYearday>)
    ensures
        r is Ok <==> all_in_range(v@, 366),
        r matches Ok(out) ==> out@.len() == v@.len() && forall|i: int|
            0 <= i < v@.len() ==> #[trigger] out@[i].spec_value() == v@[i],
        r matches Err(e) ==> !all_in_range(v@, 366) && e.value == v@[first_out_of_range(v@, 366)],
{
    let mut out: Vec<Yearday> = Vec::new();
    let mut i: usize = 0;
    while i < v.len()
        invariant
            i <= v@.len(),
            out@.len() == i,
            forall|j: int| 0 <= j < i ==> 1 <= #[trigger] v@[j] <= 366,
            forall|j: int| 0 <= j < i ==> #[trigger] out@[j].spec_value() == v@[j],
        decreases v@.len() - i,
    {
        match Yearday::new(v[i]) {
            Ok(m) => out.push(m),
            Err(e) => {
                proof {
                    lemma_first_out_of_range_prefix(v@, 366, i as int);
                }
                return Err(e);
            },
        }
        i = i + 1;
    }
    Ok(out)
}

/// If everything before `i` is in range and `v[i]` is not, then `i` is the
/// first value out of range.
proof fn lemma_first_out_of_range_prefix(v: Seq<u32>, bound: int, i: int)
    requires
        0 <= i < v.len(),
        forall|j: int| 0 <= j < i ==> 1 <= #[trigger] v[j] <= bound,
        !(1 <= v[i] <= bound),
    ensures
        first_out_of_range(v, bound) == i,
        !all_in_range(v, bound),
    decreases i,
{
    if i > 0 {
        lemma_first_out_of_range_prefix(v.drop_first(), bound, i - 1);
        assert(forall|j: int| 0 <= j < i - 1 ==> v.drop_first()[j] == v[j + 1]);
        assert(v.drop_first()[i - 1] == v[i]);
    }
}

impl Recurrence {
    /// Validate a loose recurrence record into a typed rule.
    ///
    /// Succeeds exactly when the fields the frequency allows are the ones
    /// given, required ones are non-empty, and each day value is in range;
    /// any other record is rejected with the error naming what is wrong.
    pub fn new(serde: SerdeRecurrence) -> (r: Result<Recurrence, InvalidRecurrence>)
        ensures
            r is Ok <==> spec_recurrence_ok(serde),
            r matches Err(e) ==> e == spec_recurrence_err(serde),
            r matches Ok(rec) ==> rec.spec_built_from(serde),
    {
        match serde.frequency {
            Frequency::Daily => {
                if serde.weekdays.len() > 0 {
                    return Err(InvalidRecurrence::WeekdaysNotAllowed);
                }
                if serde.monthdays.len() > 0 {
                    return Err(InvalidRecurrence::MonthdaysNotAllowed);
                }
                if serde.yeardays.len() > 0 {
                    return Err(InvalidRecurrence::YeardaysNotAllowed);
                }
                if serde.dates.len() > 0 {
                    return Err(InvalidRecurrence::DatesNotAllowed);
                }
                Ok(Recurrence::Daily)
            },
            Frequency::Weekly => {
                if serde.monthdays.len() > 0 {
                    return Err(InvalidRecurrence::MonthdaysNotAllowed);
                }
                if serde.yeardays.len() > 0 {
                    return Err(InvalidRecurrence::YeardaysNotAllowed);
                }
                if serde.dates.len() > 0 {
                    return Err(InvalidRecurrence::DatesNotAllowed);
                }
                if serde.weekdays.len() == 0 {
                    return Err(InvalidRecurrence::WeekdaysRequired);
                }
                Ok(Recurrence::Weekly(serde.weekdays))
            },
            Frequency::Monthly => {
                if serde.yeardays.len() > 0 {
                    return Err(InvalidRecurrence::YeardaysNotAllowed);
                }
                if serde.dates.len() > 0 {
                    return Err(InvalidRecurrence::DatesNotAllowed);
                }
                if serde.weekdays.len() == 0 {
                    if serde.monthdays.len() == 0 {
                        return Err(InvalidRecurrence::WeekdaysOrMonthdaysRequired);
                    }
                    match to_monthdays(&serde.monthdays) {
                        Ok(mds) => Ok(Recurrence::Monthly(mds)),
                        Err(e) => Err(InvalidRecurrence::InvalidMonthday(e)),
                    }
                } else {
                    let index = match serde.index {
                        Some(i) => i,
                        None => WeekIndex::First,
                    };
                    Ok(Recurrence::RelativeMonthly(serde.weekdays, index))
                }
            },
            Frequency::Yearly => {
                if serde.weekdays.len() > 0 {
                    return Err(InvalidRecurrence::WeekdaysNotAllowed);
                }
                if serde.monthdays.len() > 0 {
                    return Err(InvalidRecurrence::MonthdaysNotAllowed);
                }
                if serde.dates.len() > 0 {
                    return Err(InvalidRecurrence::DatesNotAllowed);
                }
                if serde.yeardays.len() == 0 {
                    return Err(InvalidRecurrence::YeardaysRequired);
                }
                match to_yeardays(&serde.yeardays) {
                    Ok(yds) => Ok(Recurrence::Yearly(yds)),
                    Err(e) => Err(InvalidRecurrence::InvalidYearday(e)),
                }
            },
            Frequency::Once => {
                if serde.weekdays.len() > 0 {
                    return Err(InvalidRecurrence::WeekdaysNotAllowed);
                }
                if serde.monthdays.len() > 0 {
                    return Err(InvalidRecurrence::MonthdaysNotAllowed);
                }
                if serde.yeardays.len() > 0 {
                    return Err(InvalidRecurrence::YeardaysNotAllowed);
                }
                if serde.dates.len() == 0 {
                    return Err(InvalidRecurrence::DatesRequired);
                }
                Ok(Recurrence::Once(serde.dates))
            },
        }
    }

    /// The rule is the faithful validation of the record: same variant as
    /// the frequency, with the record's own payload carried over.
    pub open spec fn spec_built_from(self, s: SerdeRecurrence) -> bool {
        match s.frequency {
            Frequency::Daily => self is Daily,
            Frequency::Weekly => self matches Recurrence::Weekly(w) && w@ == s.weekdays@,
            Frequency::Monthly => if s.weekdays@.len() == 0 {
                self matches Recurrence::Monthly(mds) && mds@.len() == s.monthdays@.len()
                    && forall|i: int|
                    0 <= i < mds@.len() ==> #[trigger] mds@[i].spec_value() == s.monthdays@[i]
            } else {
                self matches Recurrence::RelativeMonthly(w, idx) && w@ == s.weekdays@ && idx == (
                match s.index {
                    Some(i) => i,
                    None => WeekIndex::First,
                })
            },
            Frequency::Yearly => self matches Recurrence::Yearly(yds) && yds@.len()
                == s.yeardays@.len() && forall|i: int|
                0 <= i < yds@.len() ==> #[trigger] yds@[i].spec_value() == s.yeardays@[i],
            Frequency::Once => self matches Recurrence::Once(ds) && ds@ == s.dates@,
        }
    }

    /// The rule occurs on `date`.
    pub open spec fn spec_matches(self, date: Date) -> bool {
        match self {
            Recurrence::Daily => true,
            Recurrence::Weekly(weekdays) => weekdays@.contains(date.spec_weekday()),
            Recurrence::Monthly(monthdays) => exists|i: int|
                0 <= i < monthdays@.len() && #[trigger] monthdays@[i].spec_value()
                    == date.spec_day(),
            Recurrence::RelativeMonthly(weekdays, index) => weekdays@.contains(date.spec_weekday())
                && {
                let week_index = (date.spec_day() - 1) / 7;
                let from_last_index = (spec_days_in_month(date.spec_year(), date.spec_month())
                    - date.spec_day()) / 7;
                match index {
                    WeekIndex::First => week_index == 0,
                    WeekIndex::Second => week_index == 1,
                    WeekIndex::Third => week_index == 2,
                    WeekIndex::Fourth => week_index == 3,
                    WeekIndex::Last => from_last_index == 0,
                }
            },
            Recurrence::Yearly(yeardays) => exists|i: int|
                0 <= i < yeardays@.len() && #[trigger] yeardays@[i].spec_value()
                    == date.spec_ordinal(),
            Recurrence::Once(dates) => dates@.contains(date),
        }
    }

    /// Decide whether the rule occurs on the given date.
    pub fn matches(&self, date: Date) -> (r: bool)
        requires
            date.is_valid(),
        ensures
            r == self.spec_matches(date),
    {
        match self {
            Recurrence::Daily => true,
            Recurrence::Weekly(weekdays) => contains_weekday(weekdays, date.weekday()),
            Recurrence::Monthly(monthdays) => contains_monthday(monthdays, date.day()),
            Recurrence::Yearly(yeardays) => contains_yearday(yeardays, date.ordinal()),
            Recurrence::Once(dates) => contains_date(dates, date),
            Recurrence::RelativeMonthly(weekdays, index) => {
                if contains_weekday(weekdays, date.weekday()) {
                    let week_index = date.day0() / 7;
                    let month = Month::of_date(date);
                    let from_last_index = (month.num_days() - date.day()) / 7;
                    match index {
                        WeekIndex::First => week_index == 0,
                        WeekIndex::Second => week_index == 1,
                        WeekIndex::Third => week_index == 2,
                        WeekIndex::Fourth => week_index == 3,
                        WeekIndex::Last => from_last_index == 0,
                    }
                } else {
                    false
                }
            },
        }
    }
}

fn contains_weekday(v: &Vec<Weekday>, w: Weekday) -> (r: bool)
    ensures
        r == v@.contains(w),
{
    let mut i: usize = 0;
    while i < v.len()
        invariant
            i <= v@.len(),
            forall|j: int| 0 <= j < i ==> v@[j] != w,
        decreases v@.len() - i,
    {
        if v[i] == w {
            return true;
        }
        i = i + 1;
    }
    false
}

fn contains_monthday(v: &Vec<Monthday>, day: u32) -> (r: bool)
    ensures
        r == exists|i: int| 0 <= i < v@.len() && #[trigger] v@[i].spec_value() == day,
{
    let mut i: usize = 0;
    while i < v.len()
        invariant
            i <= v@.len(),
            forall|j: int| 0 <= j < i ==> #[trigger] v@[j].spec_value() != day,
        decreases v@.len() - i,
    {
        if v[i].value() == day {
            return true;
        }
        i = i + 1;
    }
    false
}

fn contains_yearday(v: &Vec<Yearday>, day: u32) -> (r: bool)
    ensures
        r == exists|i: int| 0 <= i < v@.len() && #[trigger] v@[i].spec_value() == day,
{
    let mut i: usize = 0;
    while i < v.len()
        invariant
            i <= v@.len(),
            forall|j: int| 0 <= j < i ==> #[trigger] v@[j].spec_value() != day,
        decreases v@.len() - i,
    {
        if v[i].value() == day {
            return true;
        }
        i = i + 1;
    }
    false
}

fn contains_date(v: &Vec<Date>, d: Date) -> (r: bool)
    ensures
        r == v@.contains(d),
{
    let mut i: usize = 0;
    while i < v.len()
        invariant
            i <= v@.len(),
            forall|j: int| 0 <= j < i ==> v@[j] != d,
        decreases v@.len() - i,
    {
        if v[i] == d {
            return true;
        }
        i = i + 1;
    }
    false
}

/// The count-from-month-end rule behind `WeekIndex::Last` picks exactly
/// the final occurrence of a weekday in its month: a date is within the
/// last seven days of its month precisely when no later day of the same
/// month falls on the same weekday.
pub proof fn lemma_last_index_is_final_occurrence(d: Date)
    requires
        d.is_valid(),
    ensures
        ((spec_days_in_month(d.spec_year(), d.spec_month()) - d.spec_day()) / 7 == 0) <==> (
        forall|d2: Date|
            (d2.is_valid() && d2.spec_year() == d.spec_year() && d2.spec_month()
                == d.spec_month() && d2.spec_weekday() == d.spec_weekday())
                ==> d2.spec_day() <= d.spec_day()),
{
    let y = d.spec_year();
    let m = d.spec_month();
    let dim = spec_days_in_month(y, m);
    let x = dim - d.spec_day();
    assert(0 <= x <= 30);
    if x / 7 == 0 {
        vstd::arithmetic::div_mod::lemma_fundamental_div_mod(x, 7);
        vstd::arithmetic::div_mod::lemma_mod_bound(x, 7);
        assert(x < 7);
        assert forall|d2: Date|
            (d2.is_valid() && d2.spec_year() == y && d2.spec_month() == m
                && d2.spec_weekday() == d.spec_weekday()) implies d2.spec_day()
            <= d.spec_day() by {
            lemma_same_weekday_same_month(d, d2);
            if d2.spec_day() > d.spec_day() {
                assert(d2.spec_day() >= d.spec_day() + 7);
            }
        }
    } else {
        vstd::arithmetic::div_mod::lemma_fundamental_div_mod(x, 7);
        vstd::arithmetic::div_mod::lemma_mod_bound(x, 7);
        assert(x >= 7);
        let d2 = Date { year: d.year, month: d.month, day: (d.day + 7) as u32 };
        assert(d2.is_valid());
        lemma_same_weekday_same_month(d, d2);
        assert(d2.spec_weekday() == d.spec_weekday());
        assert(!(d2.spec_day() <= d.spec_day()));
    }
}

/// Two days of one month fall on the same weekday exactly when their day
/// numbers differ by a multiple of seven.
proof fn lemma_same_weekday_same_month(a: Date, b: Date)
    requires
        a.is_valid(),
        b.is_valid(),
        a.spec_year() == b.spec_year(),
        a.spec_month() == b.spec_month(),
    ensures
        a.spec_weekday() == b.spec_weekday() <==> (b.spec_day() - a.spec_day()) % 7 == 0,
{
    let na = a.spec_day_number();
    let nb = b.spec_day_number();
    assert(nb - na == b.spec_day() - a.spec_day());
    vstd::arithmetic::div_mod::lemma_mod_bound(na, 7);
    vstd::arithmetic::div_mod::lemma_mod_bound(nb, 7);
    vstd::arithmetic::div_mod::lemma_sub_mod_noop(nb, na, 7);
    vstd::arithmetic::div_mod::lemma_mod_bound(nb % 7 - na % 7, 7);
    if a.spec_weekday() == b.spec_weekday() {
        assert(weekday_index(weekday_from_index(na % 7)) == na % 7);
        assert(weekday_index(weekday_from_index(nb % 7)) == nb % 7);
        assert(na % 7 == nb % 7);
        assert((nb - na) % 7 == (nb % 7 - na % 7) % 7);
        vstd::arithmetic::div_mod::lemma_small_mod(0nat, 7nat);
    } else {
        if (nb - na) % 7 == 0 {
            assert((nb % 7 - na % 7) % 7 == 0);
            if na % 7 == nb % 7 {
                assert(a.spec_weekday() == b.spec_weekday());
            } else if na % 7 < nb % 7 {
                vstd::arithmetic::div_mod::lemma_small_mod((nb % 7 - na % 7) as nat, 7nat);
                assert(false);
            } else {
                vstd::arithmetic::div_mod::lemma_mod_add_multiples_vanish(
                    nb % 7 - na % 7,
                    7,
                );
                vstd::arithmetic::div_mod::lemma_small_mod((nb % 7 - na % 7 + 7) as nat, 7nat);
                assert(false);
            }
        }
    }
}

} // verus!