//! What each page update consists of: the properties to upsert and the
//! lines to add, computed per calendar unit from its settings.

use crate::content::{PropModel, Property};
use crate::date::{
    spec_date_of_dn, spec_days_in_month, spec_iso_of, spec_iso_week_start, spec_weeks_in_iso_year,
    Date, IsoWeek, Month, Weekday, Year, MAX_YEAR, MIN_YEAR,
};
use crate::events::Event;
use crate::names::{
    spec_date_name, spec_month_page_name, spec_week_name, spec_weekday_name, spec_year_name, Link,
};
use crate::options::{day, month, week, year};
use crate::text::push_char;
use vstd::prelude::*;

verus! {

/// The changes one update applies to a page: properties to upsert and
/// lines to prepend or append.
#[derive(Debug)]
pub struct PageUpdate {
    pub properties: Vec<Property>,
    pub lines: Vec<String>,
}

/// A link to the named page, as page text.
pub open spec fn spec_link(name: Seq<char>) -> Seq<char> {
    seq!['[', '['] + name + seq![']', ']']
}

/// The week name of the ISO week a date falls in.
pub open spec fn spec_week_name_of_date(d: Date) -> Seq<char> {
    let t = spec_iso_of(d.spec_year(), d.spec_month(), d.spec_day());
    spec_week_name(IsoWeek { year: t.0 as i32, week: t.1 as u32 })
}

/// The properties a day page update carries, in order.
pub open spec fn spec_day_props(s: day::Settings, d: Date) -> Seq<PropModel> {
    (if s.day_of_week {
        seq![PropModel { key: "day"@, value: spec_weekday_name(d.spec_weekday()) }]
    } else {
        Seq::<PropModel>::empty()
    }) + (if s.link_to_week {
        seq![PropModel { key: "week"@, value: spec_link(spec_week_name_of_date(d)) }]
    } else {
        Seq::<PropModel>::empty()
    }) + (if s.link_to_month {
        seq![
            PropModel {
                key: "month"@,
                value: spec_link(
                    spec_month_page_name(Month { year: d.year, month: d.month }),
                ),
            },
        ]
    } else {
        Seq::<PropModel>::empty()
    }) + (if s.nav_link {
        seq![
            PropModel {
                key: "next"@,
                value: spec_link(spec_date_name(spec_date_of_dn(d.spec_day_number() + 1))),
            },
            PropModel {
                key: "prev"@,
                value: spec_link(spec_date_name(spec_date_of_dn(d.spec_day_number() - 1))),
            },
        ]
    } else {
        Seq::<PropModel>::empty()
    })
}

/// The contents of the events that occur on the date, in order.
pub open spec fn spec_event_lines(evs: Seq<Event>, d: Date) -> Seq<Seq<char>>
    decreases evs.len(),
{
    if evs.len() == 0 {
        Seq::empty()
    } else {
        (if evs.first().spec_matches(d) {
            seq![evs.first().content@]
        } else {
            Seq::<Seq<char>>::empty()
        }) + spec_event_lines(evs.drop_first(), d)
    }
}

fn link_to(name: String) -> (r: String)
    ensures
        r@ == spec_link(name@),
{
    let link = Link { name };
    link.render()
}

/// The update a day page receives: its weekday, links to its week, month
/// and neighbour days, and the content of each event that occurs that day.
pub fn day_updates(settings: &day::Settings, date: Date, events: &Vec<Event>) -> (r: PageUpdate)
    requires
        date.is_valid(),
        MIN_YEAR + 1 <= date.spec_year() <= MAX_YEAR - 1,
    ensures
        r.properties@.map_values(|p: Property| p@) == spec_day_props(*settings, date),
        r.lines@.map_values(|l: String| l@) == (if settings.events {
            spec_event_lines(events@, date)
        } else {
            Seq::<Seq<char>>::empty()
        }),
{
    let mut properties: Vec<Property> = Vec::new();
    if settings.day_of_week {
        properties.push(
            Property { key: "day".to_owned(), value: date.weekday().name().to_owned() },
        );
    }
    if settings.link_to_week {
        let week = date.iso_week();
        properties.push(
            Property { key: "week".to_owned(), value: link_to(week.to_journal_name()) },
        );
    }
    if settings.link_to_month {
        let month = Month::of_date(date);
        properties.push(
            Property { key: "month".to_owned(), value: link_to(month.to_journal_name()) },
        );
    }
    if settings.nav_link {
        let next = date.next();
        let prev = date.prev();
        proof {
            crate::date::lemma_date_of_dn(next);
            crate::date::lemma_date_of_dn(prev);
        }
        properties.push(
            Property { key: "next".to_owned(), value: link_to(next.to_journal_name()) },
        );
        properties.push(
            Property { key: "prev".to_owned(), value: link_to(prev.to_journal_name()) },
        );
    }
    proof {
        assert(properties@.map_values(|p: Property| p@) =~= spec_day_props(*settings, date));
    }
    let mut lines: Vec<String> = Vec::new();
    if settings.events {
        let mut i: usize = 0;
        proof {
            assert(events@.skip(0) =~= events@);
            assert(lines@.map_values(|l: String| l@) + spec_event_lines(events@, date)
                =~= spec_event_lines(events@, date));
        }
        while i < events.len()
            invariant
                i <= events@.len(),
                date.is_valid(),
                spec_event_lines(events@, date) == lines@.map_values(|l: String| l@)
                    + spec_event_lines(events@.skip(i as int), date),
            decreases events@.len() - i,
        {
            proof {
                assert(events@.skip(i as int).first() == events@[i as int]);
                assert(events@.skip(i as int).drop_first() =~= events@.skip(i as int + 1));
            }
            let ev = &events[i];
            if ev.matches(date) {
                let ghost prev = lines@;
                lines.push(ev.content.clone());
                proof {
                    assert(lines@.map_values(|l: String| l@) =~= prev.map_values(|l: String| l@)
                        + seq![events@[i as int].content@]);
                }
            }
            i = i + 1;
        }
        proof {
            assert(events@.skip(events@.len() as int) =~= Seq::<Event>::empty());
            assert(lines@.map_values(|l: String| l@) + Seq::<Seq<char>>::empty() =~= lines@
                .map_values(|l: String| l@));
        }
    } else {
        proof {
            assert(lines@.map_values(|l: String| l@) =~= Seq::<Seq<char>>::empty());
        }
    }
    PageUpdate { properties, lines }
}

/// One day's line on a week or month page: its weekday and an embedded
/// link to the day page.
pub open spec fn spec_day_line(d: Date) -> Seq<char> {
    seq!['-', ' '] + spec_weekday_name(d.spec_weekday()) + seq![' ', '!'] + spec_link(
        spec_date_name(d),
    )
}

fn day_line(d: Date) -> (r: String)
    requires
        d.is_valid(),
    ensures
        r@ == spec_day_line(d),
{
    let mut out = String::new();
    push_char(&mut out, '-');
    push_char(&mut out, ' ');
    out.append(d.weekday().name());
    push_char(&mut out, ' ');
    push_char(&mut out, '!');
    out.append(link_to(d.to_journal_name()).as_str());
    proof {
        assert(out@ =~= spec_day_line(d));
    }
    out
}

/// The properties a week page update carries, in order.
pub open spec fn spec_week_props(s: week::Settings, w: IsoWeek) -> Seq<PropModel> {
    let monday = spec_date_of_dn(spec_iso_week_start(w.year as int, w.week as int));
    (if s.link_to_month {
        seq![
            PropModel {
                key: "month"@,
                value: spec_link(
                    spec_month_page_name(Month { year: monday.year, month: monday.month }),
                ),
            },
        ]
    } else {
        Seq::<PropModel>::empty()
    }) + (if s.nav_link {
        seq![
            PropModel {
                key: "next"@,
                value: spec_link(
                    spec_week_name(
                        if (w.week as int) < spec_weeks_in_iso_year(w.year as int) {
                            IsoWeek { year: w.year, week: (w.week + 1) as u32 }
                        } else {
                            IsoWeek { year: (w.year + 1) as i32, week: 1 }
                        },
                    ),
                ),
            },
            PropModel {
                key: "prev"@,
                value: spec_link(
                    spec_week_name(
                        if w.week > 1 {
                            IsoWeek { year: w.year, week: (w.week - 1) as u32 }
                        } else {
                            IsoWeek {
                                year: (w.year - 1) as i32,
                                week: spec_weeks_in_iso_year(w.year as int - 1) as u32,
                            }
                        },
                    ),
                ),
            },
        ]
    } else {
        Seq::<PropModel>::empty()
    })
}

/// The seven day lines of a week page, Monday through Sunday.
pub open spec fn spec_week_lines(w: IsoWeek) -> Seq<Seq<char>> {
    Seq::new(
        7,
        |i: int|
            spec_day_line(
                spec_date_of_dn(spec_iso_week_start(w.year as int, w.week as int) + i),
            ),
    )
}

/// The update a week page receives: a link to its month, links to its
/// neighbour weeks, and one line per day of the week.
pub fn week_updates(settings: &week::Settings, week: IsoWeek) -> (r: PageUpdate)
    requires
        week.is_valid(),
        MIN_YEAR + 2 <= week.year as int <= MAX_YEAR - 2,
    ensures
        r.properties@.map_values(|p: Property| p@) == spec_week_props(*settings, week),
        r.lines@.map_values(|l: String| l@) == (if settings.week {
            spec_week_lines(week)
        } else {
            Seq::<Seq<char>>::empty()
        }),
{
    let mut properties: Vec<Property> = Vec::new();
    let monday = week.first();
    proof {
        crate::date::lemma_date_of_dn(monday);
    }
    if settings.link_to_month {
        let month = Month::of_date(monday);
        properties.push(
            Property { key: "month".to_owned(), value: link_to(month.to_journal_name()) },
        );
    }
    if settings.nav_link {
        let next = week.next();
        let prev = week.prev();
        properties.push(
            Property { key: "next".to_owned(), value: link_to(next.to_journal_name()) },
        );
        properties.push(
            Property { key: "prev".to_owned(), value: link_to(prev.to_journal_name()) },
        );
    }
    proof {
        assert(properties@.map_values(|p: Property| p@) =~= spec_week_props(*settings, week));
    }
    let mut lines: Vec<String> = Vec::new();
    if settings.week {
        let mut d = monday;
        let mut i: usize = 0;
        while i < 7
            invariant
                i <= 7,
                week.is_valid(),
                MIN_YEAR + 2 <= week.year as int <= MAX_YEAR - 2,
                d.is_valid(),
                i < 7 ==> d.spec_day_number() == spec_iso_week_start(
                    week.year as int,
                    week.week as int,
                ) + i,
                lines@.map_values(|l: String| l@) == spec_week_lines(week).take(i as int),
            decreases 7 - i,
        {
            proof {
                lemma_week_day_in_range(week, i as int);
                crate::date::lemma_date_of_dn(d);
            }
            let ghost prev = lines@;
            let line = day_line(d);
            let ghost lv = line@;
            lines.push(line);
            proof {
                assert(d == spec_date_of_dn(
                    spec_iso_week_start(week.year as int, week.week as int) + i,
                ));
                assert(spec_week_lines(week)[i as int] == spec_day_line(d));
                assert(lines@.map_values(|l: String| l@) =~= prev.map_values(|l: String| l@).push(
                    lv,
                ));
                assert(lines@.map_values(|l: String| l@) =~= spec_week_lines(week).take(
                    i as int + 1,
                ));
            }
            i = i + 1;
            if i < 7 {
                d = d.next();
            }
        }
        proof {
            assert(spec_week_lines(week).take(7) =~= spec_week_lines(week));
        }
    } else {
        proof {
            assert(lines@.map_values(|l: String| l@) =~= Seq::<Seq<char>>::empty());
        }
    }
    PageUpdate { properties, lines }
}

/// Every day of a valid week lies inside the calendar, away from its ends.
proof fn lemma_week_day_in_range(w: IsoWeek, i: int)
    requires
        w.is_valid(),
        MIN_YEAR + 2 <= w.year as int <= MAX_YEAR - 2,
        0 <= i < 7,
    ensures
        forall|d: Date|
            d.is_valid() && d.spec_day_number() == spec_iso_week_start(
                w.year as int,
                w.week as int,
            ) + i ==> d.has_next() && MIN_YEAR < d.spec_year() < MAX_YEAR,
{
    assert forall|d: Date|
        d.is_valid() && d.spec_day_number() == spec_iso_week_start(
            w.year as int,
            w.week as int,
        ) + i implies d.has_next() && MIN_YEAR < d.spec_year() < MAX_YEAR by {
        crate::date::lemma_iso_week_day_year_bounds(w, i, d);
    }
}

/// The properties a month page update carries, in order.
pub open spec fn spec_month_props(s: month::Settings, m: Month) -> Seq<PropModel> {
    if s.nav_link {
        seq![
            PropModel {
                key: "next"@,
                value: spec_link(
                    spec_month_page_name(
                        if m.month < 12 {
                            Month { year: m.year, month: (m.month + 1) as u32 }
                        } else {
                            Month { year: (m.year + 1) as i32, month: 1 }
                        },
                    ),
                ),
            },
            PropModel {
                key: "prev"@,
                value: spec_link(
                    spec_month_page_name(
                        if m.month > 1 {
                            Month { year: m.year, month: (m.month - 1) as u32 }
                        } else {
                            Month { year: (m.year - 1) as i32, month: 12 }
                        },
                    ),
                ),
            },
        ]
    } else {
        Seq::<PropModel>::empty()
    }
}

/// The week heading above a day line, `#### [[YYYY/Week WW]]`.
pub open spec fn spec_week_heading(d: Date) -> Seq<char> {
    seq!['#', '#', '#', '#', ' '] + spec_link(spec_week_name_of_date(d))
}

/// The body lines of a month page from day `d` on: each day's line, with a
/// week heading above the first day and above each Monday.
pub open spec fn spec_month_lines(y: int, mo: int, d: int) -> Seq<Seq<char>>
    decreases spec_days_in_month(y, mo) - d + 1,
{
    if d < 1 || d > spec_days_in_month(y, mo) {
        Seq::empty()
    } else {
        let date = Date { year: y as i32, month: mo as u32, day: d as u32 };
        (if d == 1 || date.spec_weekday() == Weekday::Monday {
            seq![spec_week_heading(date)]
        } else {
            Seq::<Seq<char>>::empty()
        }) + seq![spec_day_line(date)] + spec_month_lines(y, mo, d + 1)
    }
}

fn week_heading(d: Date) -> (r: String)
    requires
        d.is_valid(),
        MIN_YEAR + 1 <= d.spec_year() <= MAX_YEAR - 1,
    ensures
        r@ == spec_week_heading(d),
{
    let mut out = String::new();
    push_char(&mut out, '#');
    push_char(&mut out, '#');
    push_char(&mut out, '#');
    push_char(&mut out, '#');
    push_char(&mut out, ' ');
    out.append(link_to(d.iso_week().to_journal_name()).as_str());
    proof {
        assert(out@ =~= spec_week_heading(d));
    }
    out
}

/// The update a month page receives: links to its neighbour months, and a
/// line per day grouped under week headings.
pub fn month_updates(settings: &month::Settings, month: Month) -> (r: PageUpdate)
    requires
        month.is_valid(),
        MIN_YEAR + 1 <= month.year as int <= MAX_YEAR - 1,
    ensures
        r.properties@.map_values(|p: Property| p@) == spec_month_props(*settings, month),
        r.lines@.map_values(|l: String| l@) == (if settings.month {
            spec_month_lines(month.year as int, month.month as int, 1)
        } else {
            Seq::<Seq<char>>::empty()
        }),
{
    let mut properties: Vec<Property> = Vec::new();
    if settings.nav_link {
        let next = month.next();
        let prev = month.prev();
        properties.push(
            Property { key: "next".to_owned(), value: link_to(next.to_journal_name()) },
        );
        properties.push(
            Property { key: "prev".to_owned(), value: link_to(prev.to_journal_name()) },
        );
    }
    proof {
        assert(properties@.map_values(|p: Property| p@) =~= spec_month_props(*settings, month));
    }
    let mut lines: Vec<String> = Vec::new();
    if settings.month {
        let n = month.num_days();
        let mut d: u32 = 1;
        let ghost y = month.year as int;
        let ghost mo = month.month as int;
        proof {
            assert(lines@.map_values(|l: String| l@) + spec_month_lines(y, mo, 1)
                =~= spec_month_lines(y, mo, 1));
        }
        while d <= n
            invariant
                1 <= d <= n + 1,
                n as int == spec_days_in_month(y, mo),
                month.is_valid(),
                y == month.year as int,
                mo == month.month as int,
                MIN_YEAR + 1 <= y <= MAX_YEAR - 1,
                spec_month_lines(y, mo, 1) == lines@.map_values(|l: String| l@)
                    + spec_month_lines(y, mo, d as int),
            decreases n + 1 - d,
        {
            let date = Date { year: month.year, month: month.month, day: d };
            if d == 1 || date.weekday() == Weekday::Monday {
                let ghost prev = lines@;
                let heading = week_heading(date);
                let ghost hv = heading@;
                lines.push(heading);
                proof {
                    assert(lines@.map_values(|l: String| l@) =~= prev.map_values(
                        |l: String| l@,
                    ).push(hv));
                }
            }
            let ghost prev = lines@;
            let line = day_line(date);
            let ghost lv = line@;
            lines.push(line);
            proof {
                assert(lines@.map_values(|l: String| l@) =~= prev.map_values(|l: String| l@).push(
                    lv,
                ));
                assert(lines@.map_values(|l: String| l@) + spec_month_lines(y, mo, d as int + 1)
                    =~= (lines@.map_values(|l: String| l@) + spec_month_lines(
                    y,
                    mo,
                    d as int + 1,
                )));
            }
            d = d + 1;
        }
        proof {
            assert(spec_month_lines(y, mo, n as int + 1) =~= Seq::<Seq<char>>::empty());
        }
    } else {
        proof {
            assert(lines@.map_values(|l: String| l@) =~= Seq::<Seq<char>>::empty());
        }
    }
    PageUpdate { properties, lines }
}

/// The properties a year page update carries, in order.
pub open spec fn spec_year_props(s: year::Settings, y: Year) -> Seq<PropModel> {
    if s.nav_link {
        seq![
            PropModel {
                key: "next"@,
                value: spec_link(spec_year_name(Year { year: (y.year + 1) as i32 })),
            },
            PropModel {
                key: "prev"@,
                value: spec_link(spec_year_name(Year { year: (y.year - 1) as i32 })),
            },
        ]
    } else {
        Seq::<PropModel>::empty()
    }
}

/// The body lines of a year page: a link per month, in order.
pub open spec fn spec_year_lines(y: Year) -> Seq<Seq<char>> {
    Seq::new(
        12,
        |i: int| spec_link(spec_month_page_name(Month { year: y.year, month: (i + 1) as u32 })),
    )
}

/// The update a year page receives: links to its neighbour years, and a
/// link per month.
pub fn year_updates(settings: &year::Settings, yr: Year) -> (r: PageUpdate)
    requires
        yr.is_valid(),
        MIN_YEAR + 1 <= yr.year as int <= MAX_YEAR - 1,
    ensures
        r.properties@.map_values(|p: Property| p@) == spec_year_props(*settings, yr),
        r.lines@.map_values(|l: String| l@) == (if settings.month {
            spec_year_lines(yr)
        } else {
            Seq::<Seq<char>>::empty()
        }),
{
    let mut properties: Vec<Property> = Vec::new();
    if settings.nav_link {
        let next = yr.next();
        let prev = yr.prev();
        properties.push(
            Property { key: "next".to_owned(), value: link_to(next.to_journal_name()) },
        );
        properties.push(
            Property { key: "prev".to_owned(), value: link_to(prev.to_journal_name()) },
        );
    }
    proof {
        assert(properties@.map_values(|p: Property| p@) =~= spec_year_props(*settings, yr));
    }
    let mut lines: Vec<String> = Vec::new();
    if settings.month {
        let mut m: u32 = 1;
        while m <= 12
            invariant
                1 <= m <= 13,
                yr.is_valid(),
                lines@.map_values(|l: String| l@) == spec_year_lines(yr).take(m as int - 1),
            decreases 13 - m,
        {
            let month = Month { year: yr.year, month: m };
            let ghost prev = lines@;
            let line = link_to(month.to_journal_name());
            let ghost lv = line@;
            lines.push(line);
            proof {
                assert(lines@.map_values(|l: String| l@) =~= prev.map_values(|l: String| l@).push(
                    lv,
                ));
                assert(spec_year_lines(yr)[m as int - 1] == lv);
                assert(lines@.map_values(|l: String| l@) =~= spec_year_lines(yr).take(m as int));
            }
            m = m + 1;
        }
        proof {
            assert(spec_year_lines(yr).take(12) =~= spec_year_lines(yr));
        }
    } else {
        proof {
            assert(lines@.map_values(|l: String| l@) =~= Seq::<Seq<char>>::empty());
        }
    }
    PageUpdate { properties, lines }
}

} // verus!