//! Calendar dates and the month buckets used for aggregation.

use vstd::prelude::*;

verus! {

/// A day of the proleptic Gregorian calendar.
#[derive(Clone, Copy, Debug, PartialEq, Eq, Hash)]
pub struct Date {
    pub year: i32,
    pub month: u32,
    pub day: u32,
}

/// A calendar month of a given year: the key of a monthly bucket.
#[derive(Clone, Copy, Debug, PartialEq, Eq, Hash)]
pub struct MonthYear {
    pub month: u32,
    pub year: i32,
}

pub open spec fn is_leap_year(year: int) -> bool {
    year % 4 == 0 && (year % 100 != 0 || year % 400 == 0)
}

pub open spec fn days_in_month(year: int, month: int) -> int {
    if month == 2 {
        if is_leap_year(year) { 29 } else { 28 }
    } else if month == 4 || month == 6 || month == 9 || month == 11 {
        30
    } else {
        31
    }
}

/// Year 262142 is the last and year -262143 the first that the date
/// library backing the parser can represent.
pub const LATEST_YEAR: i32 = 262142;
pub const EARLIEST_YEAR: i32 = -262143;

impl Date {
    /// The date names a real day.
    pub open spec fn valid(self) -> bool {
        &&& 1 <= self.month <= 12
        &&& 1 <= self.day <= days_in_month(self.year as int, self.month as int)
    }

    /// Chronological order.
    pub open spec fn before(self, other: Date) -> bool {
        ||| self.year < other.year
        ||| (self.year == other.year && self.month < other.month)
        ||| (self.year == other.year && self.month == other.month && self.day < other.day)
    }

    pub open spec fn not_after(self, other: Date) -> bool {
        self.before(other) || self == other
    }

    /// The last day that can be represented: the start value of a running minimum.
    pub fn latest() -> (r: Date)
        ensures
            r == (Date { year: LATEST_YEAR, month: 12, day: 31 }),
            r.valid(),
    {
        Date { year: LATEST_YEAR, month: 12, day: 31 }
    }

    /// The first day that can be represented: the start value of a running maximum.
    pub fn earliest() -> (r: Date)
        ensures
            r == (Date { year: EARLIEST_YEAR, month: 1, day: 1 }),
            r.valid(),
    {
        Date { year: EARLIEST_YEAR, month: 1, day: 1 }
    }

    pub fn is_before(&self, other: &Date) -> (r: bool)
        ensures
            r == self.before(*other),
    {
        self.year < other.year || (self.year == other.year && (self.month < other.month || (
        self.month == other.month && self.day < other.day)))
    }

    /// The earlier of two dates.
    pub fn earlier(self, other: Date) -> (r: Date)
        ensures
            r == (if other.before(self) { other } else { self }),
    {
        if other.is_before(&self) {
            other
        } else {
            self
        }
    }

    /// The later of two dates.
    pub fn later(self, other: Date) -> (r: Date)
        ensures
            r == (if self.before(other) { other } else { self }),
    {
        if self.is_before(&other) {
            other
        } else {
            self
        }
    }

    pub open spec fn month_year_of(self) -> MonthYear {
        MonthYear { month: self.month, year: self.year }
    }

    /// The month that this date falls in.
    pub fn month_year(&self) -> (r: MonthYear)
        ensures
            r == self.month_year_of(),
    {
        MonthYear { month: self.month, year: self.year }
    }
}

impl MonthYear {
    /// Year first, then month.
    pub open spec fn lt(self, other: MonthYear) -> bool {
        self.year < other.year || (self.year == other.year && self.month < other.month)
    }

    pub fn is_before(&self, other: &MonthYear) -> (r: bool)
        ensures
            r == self.lt(*other),
    {
        self.year < other.year || (self.year == other.year && self.month < other.month)
    }

    pub fn same_as(&self, other: &MonthYear) -> (r: bool)
        ensures
            r == (*self == *other),
    {
        self.year == other.year && self.month == other.month
    }
}

/// The (year, month, day) that parsing `text` against the strftime-like
/// `format` yields, if it succeeds.
pub uninterp spec fn date_parsed_from(text: Seq<char>, format: Seq<char>) -> Option<(int, int, int)>;

/// Relies on `chrono::NaiveDate::parse_from_str`: the outcome depends on the
/// text and the format alone, and a parsed date is a real day within chrono's
/// range of years.
#[verifier::external_body]
pub(crate) fn parse_date(text: &str, format: &str) -> (r: Option<Date>)
    ensures
        match r {
            Some(d) => {
                &&& d.valid()
                &&& EARLIEST_YEAR <= d.year <= LATEST_YEAR
                &&& date_parsed_from(text@, format@) == Some((d.year as int, d.month as int, d.day as int))
            },
            None => date_parsed_from(text@, format@) is None,
        },
{
    let d = chrono::NaiveDate::parse_from_str(text, format).ok()?;
    Some(Date { year: chrono::Datelike::year(&d), month: chrono::Datelike::month(&d), day: chrono::Datelike::day(&d) })
}

} // verus!
