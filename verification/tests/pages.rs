use notevault::config::SerdeConfig;
use notevault::date::{Date, Month, Year};
use notevault::events::{DateRange, Event, SerdeEvent};
use notevault::options::{day, year, PageOptions, PageSettings};
use notevault::page::Page;
use notevault::prepare::{day_updates, year_updates};
use notevault::recurrence::{Frequency, SerdeRecurrence};

fn date(y: i32, m: u32, d: u32) -> Date {
    Date::new(y, m, d).unwrap()
}

fn daily_event(from: Option<Date>, to: Option<Date>) -> Event {
    Event::new(SerdeEvent {
        recurrence: SerdeRecurrence {
            frequency: Frequency::Daily,
            weekdays: vec![],
            monthdays: vec![],
            yeardays: vec![],
            dates: vec![],
            index: None,
        },
        content: "Foo".to_owned(),
        validity: DateRange { from, to },
        exceptions: vec![],
    })
    .unwrap()
}

#[test]
fn event_outside_validity_does_not_match() {
    let event = daily_event(Some(date(2025, 1, 1)), Some(date(2025, 1, 31)));
    assert!(event.matches(date(2025, 1, 15)));
    assert!(event.matches(date(2025, 1, 1)));
    assert!(event.matches(date(2025, 1, 31)));
    assert!(!event.matches(date(2025, 2, 1)));
    assert!(!event.matches(date(2024, 12, 31)));
}

#[test]
fn event_exceptions_block_dates() {
    let mut event = daily_event(None, None);
    event.exceptions.push(DateRange {
        from: Some(date(2025, 8, 1)),
        to: Some(date(2025, 8, 10)),
    });
    assert!(event.matches(date(2025, 7, 31)));
    assert!(!event.matches(date(2025, 8, 5)));
    assert!(event.matches(date(2025, 8, 11)));
}

#[test]
fn event_on_single_date() {
    let event = Event::date(date(2026, 2, 3), "Special date".to_owned());
    assert!(event.matches(date(2026, 2, 3)));
    assert!(!event.matches(date(2026, 2, 4)));
}

#[test]
fn track_existence_and_modification() {
    let mut page = Page::absent();

    assert!(!page.file_exists());
    assert!(!page.modified());

    page.insert_property("foo".to_owned(), "bar".to_owned());
    page.prepend_line("Hello, World".to_owned());

    assert!(!page.file_exists());
    assert!(page.modified());

    assert_eq!("---\nfoo: bar\n---\n\nHello, World\n", page.render().as_str());
    page.mark_written();

    assert!(page.file_exists());
    assert!(!page.modified());

    page.insert_property("foo".to_owned(), "bar".to_owned());
    assert!(!page.modified());

    page.prepend_line("Hello, World".to_owned());
    assert!(!page.modified());

    page.prepend_line("Hello World".to_owned());
    assert!(page.modified());
}

#[test]
fn rerun_of_mutations_changes_nothing() {
    let mut page = Page::absent();
    page.insert_property("day".to_owned(), "Sunday".to_owned());
    page.insert_property("week".to_owned(), "[[2025/Week 02]]".to_owned());
    page.prepend_line("- [ ] water the plants".to_owned());
    page.prepend_line("- [ ] stretch".to_owned());
    assert!(page.modified());

    let text = page.render();

    // A second run against the page the first run produced.
    let mut reloaded = Page::from_text(text.as_str()).unwrap();
    assert!(!reloaded.modified());
    reloaded.insert_property("day".to_owned(), "Sunday".to_owned());
    reloaded.insert_property("week".to_owned(), "[[2025/Week 02]]".to_owned());
    reloaded.prepend_line("- [ ] water the plants".to_owned());
    reloaded.prepend_line("- [ ] stretch".to_owned());
    assert!(!reloaded.modified());
    assert_eq!(text, reloaded.render());
}

#[test]
fn render_of_parse_is_identity() {
    let texts = [
        "---\nfoo: bar\n---\n",
        "---\nfoo: bar\n---\n\nHello\n",
        "Hello World\n```toml\nBlock\n```\n\n- test\n",
    ];
    for text in texts {
        let page = Page::from_text(text).unwrap();
        assert_eq!(text, page.render().as_str());
    }
}

#[test]
fn prepend_lines_keeps_given_order() {
    let mut page = Page::absent();
    page.prepend_line("tail".to_owned());
    page.prepend_lines(vec!["first".to_owned(), "second".to_owned()]);
    assert_eq!("first\nsecond\ntail\n", page.render().as_str());
}

#[test]
fn serde_config_merge() {
    let base = SerdeConfig::new_default();
    assert_eq!(vec!["events/recurring.md".to_owned()], base.event_files);

    let other = SerdeConfig {
        journals_folder: Some("Foo".to_owned()),
        settings: PageSettings {
            day: Some(day::Settings {
                day_of_week: true,
                link_to_week: false,
                link_to_month: false,
                nav_link: false,
                events: false,
            }),
            week: None,
            month: None,
            year: None,
        },
        event_files: vec!["Hello".to_owned(), "events/recurring.md".to_owned()],
    };
    let merged = base.merge(other);
    assert_eq!(Some("Foo".to_owned()), merged.journals_folder);
    assert!(merged.settings.day.is_some());
    assert!(merged.settings.week.is_none());
    assert_eq!(
        vec!["events/recurring.md".to_owned(), "Hello".to_owned()],
        merged.event_files
    );
}

#[test]
fn serde_config_merge_first_writer_wins() {
    let mut a = SerdeConfig::new_default();
    a.journals_folder = Some("Foo".to_owned());
    let mut b = SerdeConfig::new_default();
    b.journals_folder = Some("Bar".to_owned());
    let merged = a.merge(b);
    assert_eq!(Some("Foo".to_owned()), merged.journals_folder);
}

#[test]
fn page_options_update_respects_command_line() {
    let mut options = PageOptions {
        day: day::Page::default(),
        week: notevault::options::week::Page::default(),
        month: notevault::options::month::Page::default(),
        year: year::Page::disabled(),
    };
    let settings = PageSettings {
        day: Some(day::Settings {
            day_of_week: true,
            link_to_week: false,
            link_to_month: false,
            nav_link: false,
            events: false,
        }),
        week: None,
        month: None,
        year: Some(year::Settings { month: true, nav_link: true }),
    };
    options.update(&settings);

    // The configured day settings replace the default.
    assert!(!options.day.is_default());
    assert!(options.day.settings().day_of_week);
    assert!(!options.day.settings().link_to_week);
    // The untouched week page keeps its default.
    assert!(options.week.is_default());
    // The disabled year page was set on the command line, so the
    // configuration does not override it.
    assert!(options.year.settings().is_empty());
}

#[test]
fn day_updates_inject_matching_events() {
    let settings = day::Settings {
        day_of_week: true,
        link_to_week: true,
        link_to_month: true,
        nav_link: true,
        events: true,
    };
    let events = vec![
        daily_event(None, None),
        daily_event(Some(date(2026, 1, 1)), Some(date(2026, 1, 31))),
    ];
    let update = day_updates(&settings, date(2026, 2, 2), &events);

    let props: Vec<(String, String)> = update
        .properties
        .iter()
        .map(|p| (p.key.clone(), p.value.clone()))
        .collect();
    assert_eq!(
        vec![
            ("day".to_owned(), "Monday".to_owned()),
            ("week".to_owned(), "[[2026/Week 06]]".to_owned()),
            ("month".to_owned(), "[[2026/February]]".to_owned()),
            ("next".to_owned(), "[[2026-02-03]]".to_owned()),
            ("prev".to_owned(), "[[2026-02-01]]".to_owned()),
        ],
        props
    );
    // Only the event whose validity covers the date contributes a line.
    assert_eq!(vec!["Foo".to_owned()], update.lines);
}

#[test]
fn year_updates_list_months() {
    let settings = year::Settings { month: true, nav_link: true };
    let update = year_updates(&settings, Year::new(2024));
    assert_eq!(2, update.properties.len());
    assert_eq!("[[2025]]", update.properties[0].value.as_str());
    assert_eq!("[[2023]]", update.properties[1].value.as_str());
    assert_eq!(12, update.lines.len());
    assert_eq!("[[2024/January]]", update.lines[0].as_str());
    assert_eq!("[[2024/December]]", update.lines[11].as_str());
}

#[test]
fn month_updates_group_days_under_weeks() {
    let settings = notevault::options::month::Settings { month: true, nav_link: true };
    let update =
        notevault::prepare::month_updates(&settings, Month::new(2024, 2).unwrap());
    assert_eq!("[[2024/March]]", update.properties[0].value.as_str());
    assert_eq!("[[2024/January]]", update.properties[1].value.as_str());
    // 29 day lines plus a heading for Feb 1 and for each of the 4 Mondays.
    assert_eq!(34, update.lines.len());
    assert_eq!("#### [[2024/Week 05]]", update.lines[0].as_str());
    assert_eq!("- Thursday ![[2024-02-01]]", update.lines[1].as_str());
    assert_eq!("#### [[2024/Week 06]]", update.lines[5].as_str());
    assert_eq!("- Monday ![[2024-02-05]]", update.lines[6].as_str());
}

#[test]
fn week_updates_list_days() {
    let settings = notevault::options::week::Settings {
        week: true,
        link_to_month: true,
        nav_link: true,
    };
    let week = date(2024, 9, 24).iso_week();
    let update = notevault::prepare::week_updates(&settings, week);
    assert_eq!("[[2024/September]]", update.properties[0].value.as_str());
    assert_eq!("[[2024/Week 40]]", update.properties[1].value.as_str());
    assert_eq!("[[2024/Week 38]]", update.properties[2].value.as_str());
    assert_eq!(7, update.lines.len());
    assert_eq!("- Monday ![[2024-09-23]]", update.lines[0].as_str());
    assert_eq!("- Sunday ![[2024-09-29]]", update.lines[6].as_str());
}
