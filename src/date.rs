use vstd::prelude::*;
use std::fmt::Write;
use chrono::{Datelike, NaiveDate};

verus! {

/// A day of the proleptic Gregorian calendar.
#[derive(Debug, Clone, Copy, PartialEq, Eq, Structural)]
pub struct CalendarDate {
    pub year: i32,
    pub month: u32,
    pub day: u32,
}

/// The earliest and the latest year that a date can have.
pub const MIN_YEAR: i32 = -262143;
pub const MAX_YEAR: i32 = 262142;

pub open spec fn is_leap_year(y: int) -> bool {
    (y % 4 == 0 && y % 100 != 0) || y % 400 == 0
}

pub open spec fn days_in_month(y: int, m: int) -> int {
    if m == 2 {
        if is_leap_year(y) { 29 } else { 28 }
    } else if m == 4 || m == 6 || m == 9 || m == 11 {
        30
    } else {
        31
    }
}

impl CalendarDate {
    /// The date exists and lies in the supported range of years.
    pub open spec fn is_valid(&self) -> bool {
        &&& MIN_YEAR <= self.year <= MAX_YEAR
        &&& 1 <= self.month <= 12
        &&& 1 <= self.day <= days_in_month(self.year as int, self.month as int)
    }

    /// The number of days from 1970-01-01 to the date.
    pub open spec fn epoch_day(&self) -> int {
        let y: int = if self.month <= 2 { self.year - 1 } else { self.year as int };
        let era = y / 400;
        let yoe = y - era * 400;
        let mp: int = if self.month > 2 { self.month - 3 } else { self.month + 9 };
        let doy = (153 * mp + 2) / 5 + self.day - 1;
        let doe = yoe * 365 + yoe / 4 - yoe / 100 + doy;
        era * 146097 + doe - 719468
    }
}

/// The text that formatting the day with the given strftime-style pattern
/// yields; `None` where the day lies out of range or the pattern is not
/// valid.
pub uninterp spec fn date_format_of(epoch_day: int, format: Seq<char>) -> Option<Seq<char>>;

/// Relies on chrono's `NaiveDate::from_ymd_opt`, which gives a date exactly
/// for the existing days of years `MIN_YEAR..=MAX_YEAR`, and on
/// `NaiveDate::to_epoch_days`, its count of days from 1970-01-01.
#[verifier::external_body]
fn epoch_days(d: CalendarDate) -> (r: Option<i32>)
    ensures
        r is Some <==> d.is_valid(),
        r matches Some(n) ==> n as int == d.epoch_day(),
{
    NaiveDate::from_ymd_opt(d.year, d.month, d.day).map(|nd| nd.to_epoch_days())
}

/// Relies on chrono's `NaiveDate::from_epoch_days` and on the `Display` of
/// `NaiveDate::format`, which fails on a pattern that is not valid; the text
/// depends on the day and the pattern alone.
#[verifier::external_body]
fn format_epoch_day(days: i32, format: &str) -> (r: Option<String>)
    ensures
        r matches Some(s) ==> date_format_of(days as int, format@) == Some(s@),
        r is None ==> date_format_of(days as int, format@) is None,
{
    match NaiveDate::from_epoch_days(days) {
        Some(d) => {
            let mut buf = String::new();
            match write!(buf, "{}", d.format(format)) {
                Ok(()) => Some(buf),
                Err(_) => None,
            }
        },
        None => None,
    }
}

/// The first and the last day number that a date can have.
pub open spec fn first_epoch_day() -> int {
    CalendarDate { year: MIN_YEAR, month: 1, day: 1 }.epoch_day()
}

pub open spec fn last_epoch_day() -> int {
    CalendarDate { year: MAX_YEAR, month: 12, day: 31 }.epoch_day()
}

/// Relies on chrono's `NaiveDate::from_epoch_days`, which gives the date
/// that lies the given number of days from 1970-01-01 wherever that date is
/// in the supported range, and on `Datelike`'s `year`, `month` and `day`.
#[verifier::external_body]
fn date_of_epoch_day(days: i32) -> (r: Option<CalendarDate>)
    ensures
        r is Some <==> first_epoch_day() <= days <= last_epoch_day(),
        r matches Some(d) ==> d.is_valid() && d.epoch_day() == days,
{
    match NaiveDate::from_epoch_days(days) {
        Some(nd) => Some(CalendarDate { year: nd.year(), month: nd.month(), day: nd.day() }),
        None => None,
    }
}

/// The day number of a date: days from 1970-01-01.
pub fn naive_date_to_date(nd: CalendarDate) -> (r: i32)
    requires
        nd.is_valid(),
    ensures
        r as int == nd.epoch_day(),
{
    match epoch_days(nd) {
        Some(n) => n,
        None => 0,
    }
}

/// A column of dates, held as day numbers, with nulls.
pub struct DateChunked {
    pub name: String,
    pub values: Vec<Option<i32>>,
}

/// A column of strings, with nulls.
pub struct StringChunked {
    pub name: String,
    pub values: Vec<Option<String>>,
}

impl DateChunked {
    /// A column of the given dates.
    pub fn from_naive_date(name: &str, v: Vec<CalendarDate>) -> (r: Self)
        requires
            forall|i: int| 0 <= i < v@.len() ==> (#[trigger] v@[i]).is_valid(),
        ensures
            r.name@ == name@,
            r.values@.len() == v@.len(),
            forall|i: int|
                0 <= i < v@.len() ==> (#[trigger] r.values@[i] matches Some(n) && n as int
                    == v@[i].epoch_day()),
    {
        let mut unit: Vec<Option<i32>> = Vec::new();
        let mut i: usize = 0;
        while i < v.len()
            invariant
                i <= v@.len(),
                forall|j: int| 0 <= j < v@.len() ==> (#[trigger] v@[j]).is_valid(),
                unit@.len() == i,
                forall|j: int|
                    0 <= j < i ==> (#[trigger] unit@[j] matches Some(n) && n as int
                        == v@[j].epoch_day()),
            decreases v@.len() - i,
        {
            unit.push(Some(naive_date_to_date(v[i])));
            i = i + 1;
        }
        DateChunked { name: String::from_str(name), values: unit }
    }

    /// A column of the given dates and nulls.
    pub fn from_naive_date_options(name: &str, v: Vec<Option<CalendarDate>>) -> (r: Self)
        requires
            forall|i: int| 0 <= i < v@.len() ==> (#[trigger] v@[i] matches Some(d) ==> d.is_valid()),
        ensures
            r.name@ == name@,
            r.values@.len() == v@.len(),
            forall|i: int|
                0 <= i < v@.len() ==> match v@[i] {
                    Some(d) => (#[trigger] r.values@[i] matches Some(n) && n as int == d.epoch_day()),
                    None => r.values@[i] is None,
                },
    {
        let mut unit: Vec<Option<i32>> = Vec::new();
        let mut i: usize = 0;
        while i < v.len()
            invariant
                i <= v@.len(),
                forall|j: int| 0 <= j < v@.len() ==> (#[trigger] v@[j] matches Some(d) ==> d.is_valid()),
                unit@.len() == i,
                forall|j: int|
                    0 <= j < i ==> match v@[j] {
                        Some(d) => (#[trigger] unit@[j] matches Some(n) && n as int == d.epoch_day()),
                        None => unit@[j] is None,
                    },
            decreases v@.len() - i,
        {
            let x = match v[i] {
                Some(d) => Some(naive_date_to_date(d)),
                None => None,
            };
            unit.push(x);
            i = i + 1;
        }
        DateChunked { name: String::from_str(name), values: unit }
    }

    /// The dates as text in the given strftime-style pattern; nulls stay
    /// null. A day that cannot be formatted, or a pattern that is not
    /// valid, is an error.
    pub fn to_string(&self, format: &str) -> (r: crate::error::PlanResult<StringChunked>)
        ensures
            r is Ok <==> forall|i: int|
                0 <= i < self.values@.len() ==> (#[trigger] self.values@[i] matches Some(v)
                    ==> date_format_of(v as int, format@) is Some),
            r is Err ==> r == Err::<StringChunked, crate::error::PlanError>(
                crate::error::PlanError::ComputeError,
            ),
            r matches Ok(out) ==> out.name@ == self.name@ && out.values@.len()
                == self.values@.len() && forall|i: int|
                0 <= i < self.values@.len() ==> match self.values@[i] {
                    Some(v) => (#[trigger] out.values@[i] matches Some(s) && date_format_of(
                        v as int,
                        format@,
                    ) == Some(s@)),
                    None => out.values@[i] is None,
                },
    {
        let mut out: Vec<Option<String>> = Vec::new();
        let mut i: usize = 0;
        while i < self.values.len()
            invariant
                i <= self.values@.len(),
                out@.len() == i,
                forall|j: int|
                    0 <= j < i ==> (#[trigger] self.values@[j] matches Some(v) ==> date_format_of(
                        v as int,
                        format@,
                    ) is Some),
                forall|j: int|
                    0 <= j < i ==> match self.values@[j] {
                        Some(v) => (#[trigger] out@[j] matches Some(s) && date_format_of(
                            v as int,
                            format@,
                        ) == Some(s@)),
                        None => out@[j] is None,
                    },
            decreases self.values@.len() - i,
        {
            match self.values[i] {
                None => out.push(None),
                Some(v) => match format_epoch_day(v, format) {
                    Some(s) => out.push(Some(s)),
                    None => {
                        return Err(crate::error::PlanError::ComputeError);
                    },
                },
            }
            i = i + 1;
        }
        Ok(StringChunked { name: self.name.clone(), values: out })
    }

    /// The dates as text in the given strftime-style pattern (see
    /// `to_string`).
    pub fn strftime(&self, format: &str) -> (r: crate::error::PlanResult<StringChunked>)
        ensures
            r is Ok <==> forall|i: int|
                0 <= i < self.values@.len() ==> (#[trigger] self.values@[i] matches Some(v)
                    ==> date_format_of(v as int, format@) is Some),
            r is Err ==> r == Err::<StringChunked, crate::error::PlanError>(
                crate::error::PlanError::ComputeError,
            ),
            r matches Ok(out) ==> out.name@ == self.name@ && out.values@.len()
                == self.values@.len() && forall|i: int|
                0 <= i < self.values@.len() ==> match self.values@[i] {
                    Some(v) => (#[trigger] out.values@[i] matches Some(s) && date_format_of(
                        v as int,
                        format@,
                    ) == Some(s@)),
                    None => out.values@[i] is None,
                },
    {
        self.to_string(format)
    }

    /// The dates of the column; nulls stay null. A day number out of the
    /// range of dates is an error.
    pub fn as_date_iter(&self) -> (r: crate::error::PlanResult<Vec<Option<CalendarDate>>>)
        ensures
            r is Ok <==> forall|i: int|
                0 <= i < self.values@.len() ==> (#[trigger] self.values@[i] matches Some(v)
                    ==> first_epoch_day() <= v <= last_epoch_day()),
            r is Err ==> r == Err::<Vec<Option<CalendarDate>>, crate::error::PlanError>(
                crate::error::PlanError::ComputeError,
            ),
            r matches Ok(out) ==> out@.len() == self.values@.len() && forall|i: int|
                0 <= i < self.values@.len() ==> match self.values@[i] {
                    Some(v) => (#[trigger] out@[i] matches Some(d) && d.is_valid() && d.epoch_day()
                        == v),
                    None => out@[i] is None,
                },
    {
        let mut out: Vec<Option<CalendarDate>> = Vec::new();
        let mut i: usize = 0;
        while i < self.values.len()
            invariant
                i <= self.values@.len(),
                out@.len() == i,
                forall|j: int|
                    0 <= j < i ==> (#[trigger] self.values@[j] matches Some(v) ==> first_epoch_day()
                        <= v <= last_epoch_day()),
                forall|j: int|
                    0 <= j < i ==> match self.values@[j] {
                        Some(v) => (#[trigger] out@[j] matches Some(d) && d.is_valid()
                            && d.epoch_day() == v),
                        None => out@[j] is None,
                    },
            decreases self.values@.len() - i,
        {
            match self.values[i] {
                None => out.push(None),
                Some(v) => match date_of_epoch_day(v) {
                    Some(d) => out.push(Some(d)),
                    None => {
                        return Err(crate::error::PlanError::ComputeError);
                    },
                },
            }
            i = i + 1;
        }
        Ok(out)
    }
}

} // verus!
