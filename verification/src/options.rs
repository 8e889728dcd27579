//! Per-unit page settings and the options the four page kinds are
//! maintained with.

pub mod day;
pub mod month;
pub mod week;
pub mod year;

use vstd::prelude::*;

verus! {

/// The configuration of all four page kinds.
#[derive(Debug, Clone, Copy, PartialEq, Eq, Structural)]
pub struct PageOptions {
    pub day: day::Page,
    pub week: week::Page,
    pub month: month::Page,
    pub year: year::Page,
}

/// Optional per-unit settings, as a configuration file supplies them.
#[derive(Debug, Clone, Copy, PartialEq, Eq, Structural)]
pub struct PageSettings {
    pub day: Option<day::Settings>,
    pub week: Option<week::Settings>,
    pub month: Option<month::Settings>,
    pub year: Option<year::Settings>,
}

impl Default for PageSettings {
    /// No unit is configured.
    fn default() -> (r: PageSettings)
        ensures
            r.day is None,
            r.week is None,
            r.month is None,
            r.year is None,
    {
        PageSettings { day: None, week: None, month: None, year: None }
    }
}

impl PageOptions {
    /// Take configured settings for each unit the command line left at its
    /// default; command-line choices win over the configuration file.
    pub fn update(&mut self, settings: &PageSettings)
        ensures
            final(self).day == (if old(self).day.is_default_spec() && settings.day is Some {
                day::Page { default: false, settings: settings.day.unwrap() }
            } else {
                old(self).day
            }),
            final(self).week == (if old(self).week.is_default_spec() && settings.week is Some {
                week::Page { default: false, settings: settings.week.unwrap() }
            } else {
                old(self).week
            }),
            final(self).month == (if old(self).month.is_default_spec() && settings.month is Some {
                month::Page { default: false, settings: settings.month.unwrap() }
            } else {
                old(self).month
            }),
            final(self).year == (if old(self).year.is_default_spec() && settings.year is Some {
                year::Page { default: false, settings: settings.year.unwrap() }
            } else {
                old(self).year
            }),
    {
        if self.day.is_default() {
            match &settings.day {
                Some(day_settings) => self.day.update(day_settings),
                None => {},
            }
        }
        if self.week.is_default() {
            match &settings.week {
                Some(week_settings) => self.week.update(week_settings),
                None => {},
            }
        }
        if self.month.is_default() {
            match &settings.month {
                Some(month_settings) => self.month.update(month_settings),
                None => {},
            }
        }
        if self.year.is_default() {
            match &settings.year {
                Some(year_settings) => self.year.update(year_settings),
                None => {},
            }
        }
    }
}

} // verus!
