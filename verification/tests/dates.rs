use notevault::date::{Date, IsoWeek, Month, Monthday, Weekday, Year, Yearday};

fn date(y: i32, m: u32, d: u32) -> Date {
    Date::new(y, m, d).unwrap()
}

fn build_month(year: i32, month: u32) -> Month {
    Month::new(year, month).unwrap()
}

#[test]
fn month_num_days() {
    assert_eq!(31, build_month(2025, 1).num_days());
    assert_eq!(28, build_month(2025, 2).num_days());
    assert_eq!(29, build_month(2024, 2).num_days());
    assert_eq!(31, build_month(2025, 3).num_days());
    assert_eq!(30, build_month(2025, 4).num_days());
    assert_eq!(31, build_month(2025, 5).num_days());
    assert_eq!(30, build_month(2025, 6).num_days());
    assert_eq!(31, build_month(2025, 7).num_days());
    assert_eq!(31, build_month(2025, 8).num_days());
    assert_eq!(30, build_month(2025, 9).num_days());
    assert_eq!(31, build_month(2025, 10).num_days());
    assert_eq!(30, build_month(2025, 11).num_days());
    assert_eq!(31, build_month(2025, 12).num_days());
}

#[test]
fn month_arithmetic() {
    let month = build_month(2024, 12);
    assert_eq!(build_month(2025, 1), month.plus_months(1));
    assert_eq!(build_month(2023, 12), month.minus_months(12));
}

#[test]
fn navigation_date() {
    let d = date(2024, 9, 1);
    assert_eq!(d.next(), date(2024, 9, 2));
    assert_eq!(d.prev(), date(2024, 8, 31));
    assert_eq!(date(2024, 2, 28).next(), date(2024, 2, 29));
    assert_eq!(date(2025, 3, 1).prev(), date(2025, 2, 28));
    assert_eq!(date(2024, 12, 31).next(), date(2025, 1, 1));
}

#[test]
fn navigation_week() {
    let week = date(2024, 12, 31).iso_week();
    let prev = week.prev();
    assert_eq!(52, prev.week());
    assert_eq!(2024, prev.year());

    let next = week.next();
    assert_eq!(2, next.week());
    assert_eq!(2025, next.year());
}

#[test]
fn navigation_month() {
    let month = build_month(2024, 12);
    assert_eq!(build_month(2024, 11), month.prev());
    assert_eq!(build_month(2025, 1), month.next());
}

#[test]
fn navigation_year() {
    let year = Year::new(2024);
    assert_eq!(Year::new(2023), year.prev());
    assert_eq!(Year::new(2025), year.next());
}

#[test]
fn date_utils_year() {
    let year = Year::new(2024);
    assert_eq!(Year::new(2023), year.prev());
    assert_eq!(Year::new(2025), year.next());
    assert_eq!(build_month(2024, 1), year.first());
    assert_eq!(build_month(2024, 12), year.last());
}

#[test]
fn date_year() {
    let year = Year::new(2024);
    assert_eq!(Year::new(2023), year.prev());
    assert_eq!(Year::new(2025), year.next());
    assert_eq!(2024, year.value());
}

#[test]
fn week_endpoints() {
    let week = date(2024, 9, 24).iso_week();
    assert_eq!(week.first(), date(2024, 9, 23));
    assert_eq!(week.last(), date(2024, 9, 29));
}

#[test]
fn month_endpoints() {
    let month = build_month(2024, 2);
    assert_eq!(month.first(), date(2024, 2, 1));
    assert_eq!(month.last(), date(2024, 2, 29));
}

#[test]
fn weekdays() {
    assert_eq!(Weekday::Monday, date(2026, 2, 2).weekday());
    assert_eq!(Weekday::Sunday, date(2026, 2, 1).weekday());
    assert_eq!(Weekday::Thursday, date(1970, 1, 1).weekday());
    assert_eq!(Weekday::Saturday, date(2000, 1, 1).weekday());
}

#[test]
fn ordinals() {
    assert_eq!(1, date(2026, 1, 1).ordinal());
    assert_eq!(32, date(2026, 2, 1).ordinal());
    assert_eq!(366, date(2024, 12, 31).ordinal());
    assert_eq!(365, date(2025, 12, 31).ordinal());
}

#[test]
fn iso_week_of_new_year() {
    let week = date(2025, 1, 12).iso_week();
    assert_eq!(2025, week.year());
    assert_eq!(2, week.week());

    let week = date(2027, 1, 1).iso_week();
    assert_eq!(2026, week.year());
    assert_eq!(53, week.week());

    let week = date(2024, 12, 30).iso_week();
    assert_eq!(2025, week.year());
    assert_eq!(1, week.week());
}

#[test]
fn invalid_dates_rejected() {
    assert!(Date::new(2025, 2, 29).is_none());
    assert!(Date::new(2024, 2, 29).is_some());
    assert!(Date::new(2025, 13, 1).is_none());
    assert!(Date::new(2025, 0, 1).is_none());
    assert!(Date::new(2025, 4, 31).is_none());
}

#[test]
fn monthday_bounds() {
    assert!(Monthday::new(0).is_err());
    assert!(Monthday::new(32).is_err());
    assert!(Monthday::new(31).is_ok());
    assert!(Monthday::new(1).is_ok());
    assert_eq!(31, Monthday::new(31).unwrap().value());
}

#[test]
fn yearday_bounds() {
    assert!(Yearday::new(0).is_err());
    assert!(Yearday::new(367).is_err());
    assert!(Yearday::new(366).is_ok());
    assert!(Yearday::new(1).is_ok());
    assert_eq!(366, Yearday::new(366).unwrap().value());
}

#[test]
fn page_name_date() {
    let name = date(2025, 1, 12).to_page_name();
    assert_eq!("2025-01-12", name.name.as_str());
    assert!(matches!(name.kind, notevault::names::PageKind::Journal));
}

#[test]
fn page_name_week() {
    let name = date(2025, 1, 12).iso_week().to_page_name();
    assert_eq!("2025/Week 02", name.name.as_str());
    assert!(matches!(name.kind, notevault::names::PageKind::Default));
}

#[test]
fn page_name_month() {
    let name = build_month(2025, 1).to_page_name();
    assert_eq!("2025/January", name.name.as_str());
    assert!(matches!(name.kind, notevault::names::PageKind::Default));
}

#[test]
fn utils_year() {
    let year = Year::new(2025).to_page_name();
    assert_eq!("2025", year.name.as_str());
    assert!(matches!(year.kind, notevault::names::PageKind::Default));
}

#[test]
fn journal_path_names() {
    assert_eq!("2025_01_12.md", date(2025, 1, 12).to_journal_path_name().as_str());
    assert_eq!("0033-04-05", date(33, 4, 5).to_journal_name().as_str());
}

#[test]
fn week_iteration() {
    let week = date(2024, 9, 24).iso_week();
    let mut count = 0;
    let mut d = week.first();
    let last = week.last();
    loop {
        count += 1;
        if d == last {
            break;
        }
        d = d.next();
    }
    assert_eq!(7, count);
}

#[test]
fn page_path_resolution() {
    let journal = notevault::names::PageName {
        name: "2025-01-12".to_owned(),
        kind: notevault::names::PageKind::Journal,
    };
    assert_eq!("2025-01-12", notevault::names::page_path(None, &journal).as_str());
    assert_eq!(
        "daily-notes/2025-01-12",
        notevault::names::page_path(Some("daily-notes/"), &journal).as_str()
    );
    let plain = notevault::names::PageName {
        name: "2025/Week 02".to_owned(),
        kind: notevault::names::PageKind::Default,
    };
    assert_eq!(
        "2025/Week 02",
        notevault::names::page_path(Some("daily-notes/"), &plain).as_str()
    );
}

#[test]
fn iso_week_struct_accessors() {
    let week = IsoWeek { year: 2025, week: 2 };
    assert_eq!(2025, week.year());
    assert_eq!(2, week.week());
}

#[test]
fn date_iterator_week() {
    let week = date(2024, 9, 24).iso_week();
    assert_eq!(7, week.days().len());
    assert_eq!(date(2024, 9, 23), week.days()[0]);
    assert_eq!(date(2024, 9, 29), week.days()[6]);
}

#[test]
fn date_iterator_month() {
    let month = build_month(2024, 2);
    assert_eq!(29, month.days().len());
    assert_eq!(date(2024, 2, 1), month.days()[0]);
    assert_eq!(date(2024, 2, 29), month.days()[28]);
}

#[test]
fn date_iterator_year() {
    let year = Year::new(2024);
    assert_eq!(12, year.months().len());
    assert_eq!(build_month(2024, 1), year.months()[0]);
    assert_eq!(build_month(2024, 12), year.months()[11]);
}

#[test]
fn unit_path_names() {
    assert_eq!(
        "2025___Week 02.md",
        date(2025, 1, 12).iso_week().to_journal_path_name().as_str()
    );
    assert_eq!("2025___January.md", build_month(2025, 1).to_journal_path_name().as_str());
    assert_eq!("2025.md", Year::new(2025).to_journal_path_name().as_str());
}
