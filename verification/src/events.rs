//! Recurring events: a validated recurrence with its content, a validity
//! range and exception ranges.

use crate::date::Date;
use crate::recurrence::{InvalidRecurrence, Recurrence, SerdeRecurrence};
use vstd::prelude::*;

verus! {

/// `a` is on or before `b` in calendar order.
pub open spec fn spec_date_le(a: Date, b: Date) -> bool {
    ||| a.spec_year() < b.spec_year()
    ||| (a.spec_year() == b.spec_year() && a.spec_month() < b.spec_month())
    ||| (a.spec_year() == b.spec_year() && a.spec_month() == b.spec_month() && a.spec_day()
        <= b.spec_day())
}

/// Compare two dates in calendar order.
pub fn date_le(a: Date, b: Date) -> (r: bool)
    ensures
        r == spec_date_le(a, b),
{
    if a.year() != b.year() {
        a.year() < b.year()
    } else if a.month() != b.month() {
        a.month() < b.month()
    } else {
        a.day() <= b.day()
    }
}

/// A range of dates, both bounds inclusive; an absent bound is unbounded.
#[derive(Clone, Copy, Debug, PartialEq, Eq, Structural)]
pub struct DateRange {
    /// Lower bound, inclusive when present.
    pub from: Option<Date>,
    /// Upper bound, inclusive when present.
    pub to: Option<Date>,
}

impl DateRange {
    /// The date lies within the range.
    pub open spec fn spec_contains(self, date: Date) -> bool {
        &&& match self.from {
            Some(from) => spec_date_le(from, date),
            None => true,
        }
        &&& match self.to {
            Some(to) => spec_date_le(date, to),
            None => true,
        }
    }

    /// A range without bounds, containing every date.
    pub fn unbounded() -> (r: DateRange)
        ensures
            r.from is None && r.to is None,
    {
        DateRange { from: None, to: None }
    }

    /// Decide whether the date lies within the range.
    pub fn contains(&self, date: Date) -> (r: bool)
        ensures
            r == self.spec_contains(date),
    {
        let from_ok = match self.from {
            Some(from) => date_le(from, date),
            None => true,
        };
        let to_ok = match self.to {
            Some(to) => date_le(date, to),
            None => true,
        };
        from_ok && to_ok
    }
}

/// The loose record a configuration block describes an event with.
#[derive(Clone, Debug)]
pub struct SerdeEvent {
    pub recurrence: SerdeRecurrence,
    pub content: String,
    pub validity: DateRange,
    pub exceptions: Vec<DateRange>,
}

/// A recurring event: a rule, the text to inject when it occurs, and the
/// date ranges limiting it.
#[derive(Clone, Debug)]
pub struct Event {
    pub recurrence: Recurrence,
    pub content: String,
    pub validity: DateRange,
    pub exceptions: Vec<DateRange>,
}

impl Event {
    /// The event occurs on `date`: the date is within validity, outside
    /// every exception, and the recurrence rule matches.
    pub open spec fn spec_matches(self, date: Date) -> bool {
        &&& self.validity.spec_contains(date)
        &&& forall|i: int|
            0 <= i < self.exceptions@.len() ==> !(#[trigger] self.exceptions@[i]).spec_contains(
                date,
            )
        &&& self.recurrence.spec_matches(date)
    }

    /// An event that occurs once, on the given date.
    pub fn date(date: Date, content: String) -> (r: Event)
        ensures
            r.recurrence matches Recurrence::Once(ds) && ds@ == seq![date],
            r.content == content,
            r.validity.from is None && r.validity.to is None,
            r.exceptions@.len() == 0,
    {
        let mut dates: Vec<Date> = Vec::new();
        dates.push(date);
        proof {
            assert(dates@ =~= seq![date]);
        }
        Event {
            recurrence: Recurrence::Once(dates),
            content,
            validity: DateRange::unbounded(),
            exceptions: Vec::new(),
        }
    }

    /// Validate a loose event record; fails exactly when its recurrence
    /// record is rejected.
    pub fn new(event: SerdeEvent) -> (r: Result<Event, InvalidRecurrence>)
        ensures
            r is Ok <==> crate::recurrence::spec_recurrence_ok(event.recurrence),
            r matches Err(e) ==> e == crate::recurrence::spec_recurrence_err(event.recurrence),
            r matches Ok(ev) ==> {
                &&& ev.recurrence.spec_built_from(event.recurrence)
                &&& ev.content == event.content
                &&& ev.validity == event.validity
                &&& ev.exceptions == event.exceptions
            },
    {
        match Recurrence::new(event.recurrence) {
            Ok(recurrence) => Ok(
                Event {
                    recurrence,
                    content: event.content,
                    validity: event.validity,
                    exceptions: event.exceptions,
                },
            ),
            Err(e) => Err(e),
        }
    }

    /// Decide whether the event occurs on the given date.
    pub fn matches(&self, date: Date) -> (r: bool)
        requires
            date.is_valid(),
        ensures
            r == self.spec_matches(date),
    {
        if !self.validity.contains(date) {
            return false;
        }
        let mut i: usize = 0;
        while i < self.exceptions.len()
            invariant
                i <= self.exceptions@.len(),
                forall|j: int|
                    0 <= j < i ==> !(#[trigger] self.exceptions@[j]).spec_contains(date),
            decreases self.exceptions@.len() - i,
        {
            if self.exceptions[i].contains(date) {
                return false;
            }
            i = i + 1;
        }
        self.recurrence.matches(date)
    }
}

} // verus!
