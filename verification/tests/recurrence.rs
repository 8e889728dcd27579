use notevault::date::{Date, Monthday, Weekday, Yearday};
use notevault::recurrence::{
    Frequency, InvalidRecurrence, Recurrence, SerdeRecurrence, WeekIndex,
};

fn date(y: i32, m: u32, d: u32) -> Date {
    Date::new(y, m, d).unwrap()
}

fn monthday(index: u32) -> Monthday {
    Monthday::new(index).unwrap()
}

fn yearday(index: u32) -> Yearday {
    Yearday::new(index).unwrap()
}

fn record(frequency: Frequency) -> SerdeRecurrence {
    SerdeRecurrence {
        frequency,
        weekdays: vec![],
        monthdays: vec![],
        yeardays: vec![],
        dates: vec![],
        index: None,
    }
}

#[test]
fn frequency_from_str() {
    assert!("DAILY".parse::<Frequency>().unwrap().is_daily());
    assert!("WeekLy".parse::<Frequency>().unwrap().is_weekly());
    assert!("MonthLy".parse::<Frequency>().unwrap().is_monthly());
    assert!("YearLy".parse::<Frequency>().unwrap().is_yearly());
    assert!("Other".parse::<Frequency>().is_err());
}

#[test]
fn recurrence_matches() {
    assert!(Recurrence::Daily.matches(date(2026, 2, 2)));
    assert!(Recurrence::Daily.matches(date(2024, 2, 29)));

    assert!(Recurrence::Weekly(vec![Weekday::Monday]).matches(date(2026, 2, 2)));
    assert!(!Recurrence::Weekly(vec![Weekday::Monday]).matches(date(2026, 2, 3)));
    assert!(Recurrence::Weekly(vec![Weekday::Monday, Weekday::Tuesday]).matches(date(2026, 2, 3)));

    assert!(Recurrence::Monthly(vec![monthday(1)]).matches(date(2026, 2, 1)));
    assert!(!Recurrence::Monthly(vec![monthday(1)]).matches(date(2026, 2, 2)));
    assert!(Recurrence::Monthly(vec![monthday(1), monthday(2)]).matches(date(2026, 2, 2)));

    assert!(!Recurrence::RelativeMonthly(vec![Weekday::Monday], WeekIndex::First).matches(date(2026, 2, 1)));
    assert!(Recurrence::RelativeMonthly(vec![Weekday::Sunday], WeekIndex::First).matches(date(2026, 2, 1)));
    assert!(Recurrence::RelativeMonthly(vec![Weekday::Sunday, Weekday::Monday], WeekIndex::First).matches(date(2026, 2, 2)));
    assert!(!Recurrence::RelativeMonthly(vec![Weekday::Sunday, Weekday::Monday], WeekIndex::First).matches(date(2026, 2, 8)));
    assert!(Recurrence::RelativeMonthly(vec![Weekday::Sunday, Weekday::Monday], WeekIndex::Second).matches(date(2026, 2, 8)));
    assert!(!Recurrence::RelativeMonthly(vec![Weekday::Sunday, Weekday::Monday], WeekIndex::Third).matches(date(2026, 2, 2)));
    assert!(Recurrence::RelativeMonthly(vec![Weekday::Sunday], WeekIndex::Fourth).matches(date(2026, 2, 22)));
    assert!(Recurrence::RelativeMonthly(vec![Weekday::Sunday], WeekIndex::Last).matches(date(2026, 2, 22)));

    assert!(Recurrence::Yearly(vec![yearday(32)]).matches(date(2026, 2, 1)));
    assert!(!Recurrence::Yearly(vec![yearday(32)]).matches(date(2026, 2, 2)));
    assert!(Recurrence::Yearly(vec![yearday(32), yearday(33)]).matches(date(2026, 2, 2)));

    assert!(Recurrence::Once(vec![date(2026, 2, 1)]).matches(date(2026, 2, 1)));
    assert!(!Recurrence::Once(vec![date(2026, 2, 1)]).matches(date(2026, 2, 2)));
    assert!(Recurrence::Once(vec![date(2026, 2, 1), date(2026, 2, 2)]).matches(date(2026, 2, 2)));
}

#[test]
fn relative_monthly_last_of_long_month() {
    // Five Fridays in May 2026; only the 29th is the last one.
    assert!(Recurrence::RelativeMonthly(vec![Weekday::Friday], WeekIndex::Last)
        .matches(date(2026, 5, 29)));
    assert!(!Recurrence::RelativeMonthly(vec![Weekday::Friday], WeekIndex::Last)
        .matches(date(2026, 5, 22)));
    // The 29th is the fifth Friday, so `Fourth` does not match it.
    assert!(!Recurrence::RelativeMonthly(vec![Weekday::Friday], WeekIndex::Fourth)
        .matches(date(2026, 5, 29)));
}

#[test]
fn daily() {
    assert!(Recurrence::new(record(Frequency::Daily)).is_ok());
}

#[test]
fn daily_weekdays() {
    let mut r = record(Frequency::Daily);
    r.weekdays = vec![Weekday::Monday];
    assert!(matches!(Recurrence::new(r), Err(InvalidRecurrence::WeekdaysNotAllowed)));
}

#[test]
fn daily_monthdays() {
    let mut r = record(Frequency::Daily);
    r.monthdays = vec![1];
    assert!(matches!(Recurrence::new(r), Err(InvalidRecurrence::MonthdaysNotAllowed)));
}

#[test]
fn daily_yeardays() {
    let mut r = record(Frequency::Daily);
    r.yeardays = vec![1];
    assert!(matches!(Recurrence::new(r), Err(InvalidRecurrence::YeardaysNotAllowed)));
}

#[test]
fn daily_dates() {
    let mut r = record(Frequency::Daily);
    r.dates = vec![date(2026, 2, 3)];
    assert!(matches!(Recurrence::new(r), Err(InvalidRecurrence::DatesNotAllowed)));
}

#[test]
fn weekly_weekdays() {
    let mut r = record(Frequency::Weekly);
    r.weekdays = vec![Weekday::Monday];
    let rec = Recurrence::new(r).unwrap();
    assert!(matches!(rec, Recurrence::Weekly(ref w) if *w == vec![Weekday::Monday]));
}

#[test]
fn weekly_empty_weekdays() {
    assert!(matches!(Recurrence::new(record(Frequency::Weekly)), Err(InvalidRecurrence::WeekdaysRequired)));
}

#[test]
fn weekly_monthdays() {
    let mut r = record(Frequency::Weekly);
    r.monthdays = vec![1];
    assert!(matches!(Recurrence::new(r), Err(InvalidRecurrence::MonthdaysNotAllowed)));
}

#[test]
fn weekly_yeardays() {
    let mut r = record(Frequency::Weekly);
    r.yeardays = vec![1];
    assert!(matches!(Recurrence::new(r), Err(InvalidRecurrence::YeardaysNotAllowed)));
}

#[test]
fn weekly_dates() {
    let mut r = record(Frequency::Weekly);
    r.dates = vec![date(2026, 2, 3)];
    assert!(matches!(Recurrence::new(r), Err(InvalidRecurrence::DatesNotAllowed)));
}

#[test]
fn monthly_unspecified() {
    assert!(matches!(Recurrence::new(record(Frequency::Monthly)), Err(InvalidRecurrence::WeekdaysOrMonthdaysRequired)));
}

#[test]
fn monthly_weekdays() {
    let mut r = record(Frequency::Monthly);
    r.weekdays = vec![Weekday::Monday];
    let rec = Recurrence::new(r).unwrap();
    assert!(matches!(
        rec,
        Recurrence::RelativeMonthly(ref w, WeekIndex::First) if *w == vec![Weekday::Monday]
    ));
}

#[test]
fn monthly_weekdays_index() {
    let mut r = record(Frequency::Monthly);
    r.weekdays = vec![Weekday::Sunday, Weekday::Friday];
    r.index = Some(WeekIndex::Last);
    let rec = Recurrence::new(r).unwrap();
    assert!(matches!(
        rec,
        Recurrence::RelativeMonthly(ref w, WeekIndex::Last)
            if *w == vec![Weekday::Sunday, Weekday::Friday]
    ));
}

#[test]
fn monthly_monthdays() {
    let mut r = record(Frequency::Monthly);
    r.monthdays = vec![1];
    let rec = Recurrence::new(r).unwrap();
    assert!(matches!(rec, Recurrence::Monthly(ref m) if *m == vec![monthday(1)]));
}

#[test]
fn monthly_monthdays_out_of_range() {
    let mut r = record(Frequency::Monthly);
    r.monthdays = vec![1, 32];
    let err = Recurrence::new(r).unwrap_err();
    assert!(matches!(err, InvalidRecurrence::InvalidMonthday(e) if e.value == 32));
}

#[test]
fn monthly_yeardays() {
    let mut r = record(Frequency::Monthly);
    r.yeardays = vec![1];
    assert!(matches!(Recurrence::new(r), Err(InvalidRecurrence::YeardaysNotAllowed)));
}

#[test]
fn monthly_dates() {
    let mut r = record(Frequency::Monthly);
    r.dates = vec![date(2026, 2, 3)];
    assert!(matches!(Recurrence::new(r), Err(InvalidRecurrence::DatesNotAllowed)));
}

#[test]
fn yearly_yeardays() {
    let mut r = record(Frequency::Yearly);
    r.yeardays = vec![1];
    let rec = Recurrence::new(r).unwrap();
    assert!(matches!(rec, Recurrence::Yearly(ref y) if *y == vec![yearday(1)]));
}

#[test]
fn yearly_empty_yeardays() {
    assert!(matches!(Recurrence::new(record(Frequency::Yearly)), Err(InvalidRecurrence::YeardaysRequired)));
}

#[test]
fn yearly_yeardays_out_of_range() {
    let mut r = record(Frequency::Yearly);
    r.yeardays = vec![367];
    let err = Recurrence::new(r).unwrap_err();
    assert!(matches!(err, InvalidRecurrence::InvalidYearday(e) if e.value == 367));
}

#[test]
fn yearly_weekdays() {
    let mut r = record(Frequency::Yearly);
    r.weekdays = vec![Weekday::Monday];
    assert!(matches!(Recurrence::new(r), Err(InvalidRecurrence::WeekdaysNotAllowed)));
}

#[test]
fn yearly_monthdays() {
    let mut r = record(Frequency::Yearly);
    r.monthdays = vec![1];
    assert!(matches!(Recurrence::new(r), Err(InvalidRecurrence::MonthdaysNotAllowed)));
}

#[test]
fn yearly_dates() {
    let mut r = record(Frequency::Yearly);
    r.dates = vec![date(2026, 2, 3)];
    assert!(matches!(Recurrence::new(r), Err(InvalidRecurrence::DatesNotAllowed)));
}

#[test]
fn once_dates() {
    let mut r = record(Frequency::Once);
    r.dates = vec![date(2026, 2, 3)];
    let rec = Recurrence::new(r).unwrap();
    assert!(matches!(rec, Recurrence::Once(ref d) if *d == vec![date(2026, 2, 3)]));
}

#[test]
fn once_empty_dates() {
    assert!(matches!(Recurrence::new(record(Frequency::Once)), Err(InvalidRecurrence::DatesRequired)));
}

#[test]
fn once_weekdays() {
    let mut r = record(Frequency::Once);
    r.weekdays = vec![Weekday::Monday];
    assert!(matches!(Recurrence::new(r), Err(InvalidRecurrence::WeekdaysNotAllowed)));
}

#[test]
fn once_monthdays() {
    let mut r = record(Frequency::Once);
    r.monthdays = vec![1];
    assert!(matches!(Recurrence::new(r), Err(InvalidRecurrence::MonthdaysNotAllowed)));
}

#[test]
fn once_yeardays() {
    let mut r = record(Frequency::Once);
    r.yeardays = vec![1];
    assert!(matches!(Recurrence::new(r), Err(InvalidRecurrence::YeardaysNotAllowed)));
}
