//! The stable textual identities of calendar units: journal names, page
//! file names, links, and the names of months and weekdays.

use crate::date::{Date, IsoWeek, Month, Weekday, Year};
use crate::text::push_char;
use vstd::prelude::*;

verus! {

/// Decimal digit character of `d`.
pub open spec fn digit_char(d: int) -> char {
    if d == 0 {
        '0'
    } else if d == 1 {
        '1'
    } else if d == 2 {
        '2'
    } else if d == 3 {
        '3'
    } else if d == 4 {
        '4'
    } else if d == 5 {
        '5'
    } else if d == 6 {
        '6'
    } else if d == 7 {
        '7'
    } else if d == 8 {
        '8'
    } else {
        '9'
    }
}

/// Decimal digits of a non-negative number, most significant first.
pub open spec fn spec_digits(n: int) -> Seq<char>
    decreases n,
{
    if n < 0 {
        Seq::empty()
    } else if n < 10 {
        seq![digit_char(n)]
    } else {
        spec_digits(n / 10).push(digit_char(n % 10))
    }
}

/// `k` zero characters.
pub open spec fn zeros(k: int) -> Seq<char>
    decreases k,
{
    if k <= 0 {
        Seq::empty()
    } else {
        seq!['0'] + zeros(k - 1)
    }
}

/// `n` in decimal, left-padded with zeros to at least `w` characters.
pub open spec fn spec_padded(n: int, w: int) -> Seq<char> {
    zeros(w - spec_digits(n).len()) + spec_digits(n)
}

proof fn lemma_zeros(k: int)
    ensures
        zeros(k).len() == if k <= 0 {
            0int
        } else {
            k
        },
        forall|j: int| 0 <= j < zeros(k).len() ==> zeros(k)[j] == '0',
    decreases k,
{
    if k > 0 {
        lemma_zeros(k - 1);
    }
}

/// The decimal digits of `n`, most significant first.
pub fn format_u32(n: u32) -> (r: String)
    ensures
        r@ == spec_digits(n as int),
    decreases n,
{
    if n < 10 {
        let mut s = String::new();
        push_digit(&mut s, n);
        proof {
            assert(s@ =~= seq![digit_char(n as int)]);
        }
        s
    } else {
        let mut s = format_u32(n / 10);
        push_digit(&mut s, n % 10);
        s
    }
}

fn push_digit(s: &mut String, d: u32)
    requires
        d < 10,
    ensures
        final(s)@ == old(s)@.push(digit_char(d as int)),
{
    if d == 0 {
        push_char(s, '0');
    } else if d == 1 {
        push_char(s, '1');
    } else if d == 2 {
        push_char(s, '2');
    } else if d == 3 {
        push_char(s, '3');
    } else if d == 4 {
        push_char(s, '4');
    } else if d == 5 {
        push_char(s, '5');
    } else if d == 6 {
        push_char(s, '6');
    } else if d == 7 {
        push_char(s, '7');
    } else if d == 8 {
        push_char(s, '8');
    } else {
        push_char(s, '9');
    }
}

/// `n` in decimal, left-padded with zeros to at least `w` characters.
pub fn format_padded(n: u32, w: u32) -> (r: String)
    ensures
        r@ == spec_padded(n as int, w as int),
{
    let digits = format_u32(n);
    let len = digits.as_str().unicode_len();
    let mut out = String::new();
    let mut k: usize = 0;
    let pad: usize = if (len as u64) < (w as u64) {
        (w as usize) - len
    } else {
        0
    };
    proof {
        lemma_zeros(pad as int);
        lemma_zeros(w - spec_digits(n as int).len());
        assert(out@ =~= zeros(0));
    }
    while k < pad
        invariant
            k <= pad,
            pad == if spec_digits(n as int).len() < w as int {
                w - spec_digits(n as int).len()
            } else {
                0int
            },
            out@ == zeros(k as int),
        decreases pad - k,
    {
        push_char(&mut out, '0');
        proof {
            lemma_zeros(k as int);
            lemma_zeros(k as int + 1);
            assert(out@ =~= zeros(k as int + 1));
        }
        k = k + 1;
    }
    out.append(digits.as_str());
    proof {
        assert(out@ =~= spec_padded(n as int, w as int)) by {
            lemma_zeros(pad as int);
            lemma_zeros(w - spec_digits(n as int).len());
        }
    }
    out
}

/// The name of a month, in English.
pub open spec fn spec_month_name(m: int) -> Seq<char> {
    if m == 1 {
        "January"@
    } else if m == 2 {
        "February"@
    } else if m == 3 {
        "March"@
    } else if m == 4 {
        "April"@
    } else if m == 5 {
        "May"@
    } else if m == 6 {
        "June"@
    } else if m == 7 {
        "July"@
    } else if m == 8 {
        "August"@
    } else if m == 9 {
        "September"@
    } else if m == 10 {
        "October"@
    } else if m == 11 {
        "November"@
    } else {
        "December"@
    }
}

/// The name of a weekday, in English.
pub open spec fn spec_weekday_name(w: Weekday) -> Seq<char> {
    match w {
        Weekday::Monday => "Monday"@,
        Weekday::Tuesday => "Tuesday"@,
        Weekday::Wednesday => "Wednesday"@,
        Weekday::Thursday => "Thursday"@,
        Weekday::Friday => "Friday"@,
        Weekday::Saturday => "Saturday"@,
        Weekday::Sunday => "Sunday"@,
    }
}

impl Weekday {
    /// The weekday's English name.
    pub fn name(self) -> (r: &'static str)
        ensures
            r@ == spec_weekday_name(self),
    {
        match self {
            Weekday::Monday => "Monday",
            Weekday::Tuesday => "Tuesday",
            Weekday::Wednesday => "Wednesday",
            Weekday::Thursday => "Thursday",
            Weekday::Friday => "Friday",
            Weekday::Saturday => "Saturday",
            Weekday::Sunday => "Sunday",
        }
    }
}

impl Month {
    /// The month's English name.
    pub fn name(&self) -> (r: &'static str)
        requires
            1 <= self.month <= 12,
        ensures
            r@ == spec_month_name(self.month as int),
    {
        if self.month == 1 {
            "January"
        } else if self.month == 2 {
            "February"
        } else if self.month == 3 {
            "March"
        } else if self.month == 4 {
            "April"
        } else if self.month == 5 {
            "May"
        } else if self.month == 6 {
            "June"
        } else if self.month == 7 {
            "July"
        } else if self.month == 8 {
            "August"
        } else if self.month == 9 {
            "September"
        } else if self.month == 10 {
            "October"
        } else if self.month == 11 {
            "November"
        } else {
            "December"
        }
    }
}

/// Journal name of a date, `YYYY-MM-DD`.
pub open spec fn spec_date_name(d: Date) -> Seq<char> {
    spec_padded(d.year as int, 4) + seq!['-'] + spec_padded(d.month as int, 2) + seq!['-']
        + spec_padded(d.day as int, 2)
}

/// Journal name of an ISO week, `YYYY/Week WW`.
pub open spec fn spec_week_name(w: IsoWeek) -> Seq<char> {
    spec_padded(w.year as int, 4) + seq!['/', 'W', 'e', 'e', 'k', ' '] + spec_padded(
        w.week as int,
        2,
    )
}

/// Journal name of a month, `YYYY/MonthName`.
pub open spec fn spec_month_page_name(m: Month) -> Seq<char> {
    spec_padded(m.year as int, 4) + seq!['/'] + spec_month_name(m.month as int)
}

/// Journal name of a year, `YYYY`.
pub open spec fn spec_year_name(y: Year) -> Seq<char> {
    spec_padded(y.year as int, 4)
}

impl Date {
    /// The date's journal name, `YYYY-MM-DD`.
    pub fn to_journal_name(self) -> (r: String)
        requires
            self.is_valid(),
        ensures
            r@ == spec_date_name(self),
    {
        let mut out = format_padded(self.year as u32, 4);
        push_char(&mut out, '-');
        out.append(format_padded(self.month, 2).as_str());
        push_char(&mut out, '-');
        out.append(format_padded(self.day, 2).as_str());
        proof {
            assert(out@ =~= spec_date_name(self));
        }
        out
    }

    /// The date page's file name, `YYYY_MM_DD.md`.
    pub fn to_journal_path_name(self) -> (r: String)
        requires
            self.is_valid(),
        ensures
            r@ == spec_padded(self.year as int, 4) + seq!['_'] + spec_padded(self.month as int, 2)
                + seq!['_'] + spec_padded(self.day as int, 2) + seq!['.', 'm', 'd'],
    {
        let mut out = format_padded(self.year as u32, 4);
        push_char(&mut out, '_');
        out.append(format_padded(self.month, 2).as_str());
        push_char(&mut out, '_');
        out.append(format_padded(self.day, 2).as_str());
        push_char(&mut out, '.');
        push_char(&mut out, 'm');
        push_char(&mut out, 'd');
        proof {
            assert(out@ =~= spec_padded(self.year as int, 4) + seq!['_'] + spec_padded(
                self.month as int,
                2,
            ) + seq!['_'] + spec_padded(self.day as int, 2) + seq!['.', 'm', 'd']);
        }
        out
    }
}

impl IsoWeek {
    /// The week page's file name, `YYYY___Week WW.md`.
    pub fn to_journal_path_name(self) -> (r: String)
        requires
            self.year >= 0,
        ensures
            r@ == spec_padded(self.year as int, 4) + seq!['_', '_', '_', 'W', 'e', 'e', 'k', ' ']
                + spec_padded(self.week as int, 2) + seq!['.', 'm', 'd'],
    {
        let mut out = format_padded(self.year as u32, 4);
        push_char(&mut out, '_');
        push_char(&mut out, '_');
        push_char(&mut out, '_');
        push_char(&mut out, 'W');
        push_char(&mut out, 'e');
        push_char(&mut out, 'e');
        push_char(&mut out, 'k');
        push_char(&mut out, ' ');
        out.append(format_padded(self.week, 2).as_str());
        push_char(&mut out, '.');
        push_char(&mut out, 'm');
        push_char(&mut out, 'd');
        proof {
            assert(out@ =~= spec_padded(self.year as int, 4) + seq![
                '_', '_', '_', 'W', 'e', 'e', 'k', ' '
            ] + spec_padded(self.week as int, 2) + seq!['.', 'm', 'd']);
        }
        out
    }

    /// The week's journal name, `YYYY/Week WW`.
    pub fn to_journal_name(self) -> (r: String)
        requires
            self.year >= 0,
        ensures
            r@ == spec_week_name(self),
    {
        let mut out = format_padded(self.year as u32, 4);
        push_char(&mut out, '/');
        push_char(&mut out, 'W');
        push_char(&mut out, 'e');
        push_char(&mut out, 'e');
        push_char(&mut out, 'k');
        push_char(&mut out, ' ');
        out.append(format_padded(self.week, 2).as_str());
        proof {
            assert(out@ =~= spec_week_name(self));
        }
        out
    }
}

impl Month {
    /// The month page's file name, `YYYY___MonthName.md`.
    pub fn to_journal_path_name(&self) -> (r: String)
        requires
            self.is_valid(),
        ensures
            r@ == spec_padded(self.year as int, 4) + seq!['_', '_', '_'] + spec_month_name(
                self.month as int,
            ) + seq!['.', 'm', 'd'],
    {
        let mut out = format_padded(self.year as u32, 4);
        push_char(&mut out, '_');
        push_char(&mut out, '_');
        push_char(&mut out, '_');
        out.append(self.name());
        push_char(&mut out, '.');
        push_char(&mut out, 'm');
        push_char(&mut out, 'd');
        proof {
            assert(out@ =~= spec_padded(self.year as int, 4) + seq!['_', '_', '_']
                + spec_month_name(self.month as int) + seq!['.', 'm', 'd']);
        }
        out
    }

    /// The month's journal name, `YYYY/MonthName`.
    pub fn to_journal_name(&self) -> (r: String)
        requires
            self.is_valid(),
        ensures
            r@ == spec_month_page_name(*self),
    {
        let mut out = format_padded(self.year as u32, 4);
        push_char(&mut out, '/');
        out.append(self.name());
        proof {
            assert(out@ =~= spec_month_page_name(*self));
        }
        out
    }
}

impl Year {
    /// The year page's file name, `YYYY.md`.
    pub fn to_journal_path_name(self) -> (r: String)
        requires
            self.year >= 0,
        ensures
            r@ == spec_padded(self.year as int, 4) + seq!['.', 'm', 'd'],
    {
        let mut out = format_padded(self.year as u32, 4);
        push_char(&mut out, '.');
        push_char(&mut out, 'm');
        push_char(&mut out, 'd');
        proof {
            assert(out@ =~= spec_padded(self.year as int, 4) + seq!['.', 'm', 'd']);
        }
        out
    }

    /// The year's journal name, `YYYY`.
    pub fn to_journal_name(self) -> (r: String)
        requires
            self.year >= 0,
        ensures
            r@ == spec_year_name(self),
    {
        format_padded(self.year as u32, 4)
    }
}

/// A wiki-style link to a page, rendered `[[name]]`.
#[derive(Debug, Clone)]
pub struct Link {
    pub name: String,
}

impl Link {
    /// Render the link as `[[name]]`.
    pub fn render(&self) -> (r: String)
        ensures
            r@ == seq!['[', '['] + self.name@ + seq![']', ']'],
    {
        let mut out = String::new();
        push_char(&mut out, '[');
        push_char(&mut out, '[');
        out.append(self.name.as_str());
        push_char(&mut out, ']');
        push_char(&mut out, ']');
        proof {
            assert(out@ =~= seq!['[', '['] + self.name@ + seq![']', ']']);
        }
        out
    }
}

/// An embedded link, rendered `![[name]]`.
#[derive(Debug, Clone)]
pub struct Embedded {
    pub link: Link,
}

impl Embedded {
    /// Render the embedded link as `![[name]]`.
    pub fn render(&self) -> (r: String)
        ensures
            r@ == seq!['!', '[', '['] + self.link.name@ + seq![']', ']'],
    {
        let mut out = String::new();
        push_char(&mut out, '!');
        out.append(self.link.render().as_str());
        proof {
            assert(out@ =~= seq!['!', '[', '['] + self.link.name@ + seq![']', ']']);
        }
        out
    }
}

/// Whether a page lives with the journals or with the ordinary pages.
#[derive(Debug, Clone, Copy, PartialEq, Eq, Structural)]
pub enum PageKind {
    Default,
    Journal,
}

/// A page's identity: its name and where it lives.
#[derive(Debug, Clone)]
pub struct PageName {
    pub name: String,
    pub kind: PageKind,
}

impl Date {
    /// The page identity of a date: a journal page.
    pub fn to_page_name(self) -> (r: PageName)
        requires
            self.is_valid(),
        ensures
            r.name@ == spec_date_name(self),
            r.kind is Journal,
    {
        PageName { name: self.to_journal_name(), kind: PageKind::Journal }
    }
}

impl IsoWeek {
    /// The page identity of a week: an ordinary page.
    pub fn to_page_name(self) -> (r: PageName)
        requires
            self.year >= 0,
        ensures
            r.name@ == spec_week_name(self),
            r.kind is Default,
    {
        PageName { name: self.to_journal_name(), kind: PageKind::Default }
    }
}

impl Month {
    /// The page identity of a month: an ordinary page.
    pub fn to_page_name(&self) -> (r: PageName)
        requires
            self.is_valid(),
        ensures
            r.name@ == spec_month_page_name(*self),
            r.kind is Default,
    {
        PageName { name: self.to_journal_name(), kind: PageKind::Default }
    }
}

impl Year {
    /// The page identity of a year: an ordinary page.
    pub fn to_page_name(self) -> (r: PageName)
        requires
            self.year >= 0,
        ensures
            r.name@ == spec_year_name(self),
            r.kind is Default,
    {
        PageName { name: self.to_journal_name(), kind: PageKind::Default }
    }
}

/// The vault-relative path of a page: journal pages live under the
/// journals folder when one is configured.
pub fn page_path(journals_folder: Option<&str>, page: &PageName) -> (r: String)
    ensures
        match (page.kind, journals_folder) {
            (PageKind::Journal, Some(folder)) => r@ == folder@ + page.name@,
            _ => r@ == page.name@,
        },
{
    match (page.kind, journals_folder) {
        (PageKind::Journal, Some(folder)) => {
            let mut out = folder.to_owned();
            out.append(page.name.as_str());
            out
        },
        _ => page.name.as_str().to_owned(),
    }
}

} // verus!
