//! Calendar days, counted as in the proleptic Gregorian calendar with
//! January 1 of year 1 as day 1.  Conversions to and from text are done by `chrono`.

use vstd::prelude::*;
use chrono::Datelike;

verus! {

/// First day that `chrono::NaiveDate` can hold (January 1, 262144 BCE).
pub const MIN_DAY: i32 = -95746129i32;

/// Last day that `chrono::NaiveDate` can hold (December 31, 262142 CE).
pub const MAX_DAY: i32 = 95745399i32;

/// A day number inside the range that `chrono::NaiveDate` supports.
pub open spec fn valid_day(d: int) -> bool {
    MIN_DAY <= d <= MAX_DAY
}

/// A calendar date.
#[derive(Clone, Copy)]
pub struct Date {
    day: i32,
}

impl View for Date {
    type V = int;

    closed spec fn view(&self) -> int {
        self.day as int
    }
}

impl Date {
    #[verifier::type_invariant]
    closed spec fn in_range(self) -> bool {
        valid_day(self.day as int)
    }

    /// The date with the given day number, if it lies in the supported range.
    pub fn from_day(day: i32) -> (r: Option<Date>)
        ensures
            r is Some <==> valid_day(day as int),
            r matches Some(d) ==> d@ == day,
    {
        if MIN_DAY <= day && day <= MAX_DAY {
            Some(Date { day })
        } else {
            None
        }
    }

    /// The day number of this date.
    pub fn day(&self) -> (r: i32)
        ensures
            r == self@,
            valid_day(r as int),
    {
        proof {
            use_type_invariant(self);
        }
        self.day
    }

    /// The date `n` days after this one; `None` when it would leave the supported range.
    pub fn add_days(&self, n: i64) -> (r: Option<Date>)
        ensures
            r is Some <==> valid_day(self@ + n),
            r matches Some(d) ==> d@ == self@ + n,
    {
        let d = self.day();
        if n < -200000000i64 || n > 200000000i64 {
            return None;
        }
        let sum: i64 = d as i64 + n;
        if (MIN_DAY as i64) <= sum && sum <= (MAX_DAY as i64) {
            Some(Date { day: sum as i32 })
        } else {
            None
        }
    }

    /// Whole days from `other` to this date.
    pub fn days_since(&self, other: &Date) -> (r: i64)
        ensures
            r == self@ - other@,
            valid_day(self@),
            valid_day(other@),
    {
        let a = self.day();
        let b = other.day();
        a as i64 - b as i64
    }

    /// Equality of dates.
    pub fn same_day(&self, other: &Date) -> (r: bool)
        ensures
            r == (self@ == other@),
    {
        self.day() == other.day()
    }

    /// Strict order of dates.
    pub fn before(&self, other: &Date) -> (r: bool)
        ensures
            r == (self@ < other@),
    {
        self.day() < other.day()
    }
}

/// The day number of an optional date.
pub open spec fn day_of(o: Option<Date>) -> Option<int> {
    match o {
        Some(d) => Some(d@),
        None => None,
    }
}

/// The day that `chrono::NaiveDate::parse_from_str(s, "%m/%d/%y")` gives for the text `s`,
/// or `None` where it returns an error.
pub uninterp spec fn parsed_mdy(s: Seq<char>) -> Option<int>;

/// The text that `chrono` writes for a day with the format `"%m/%d/%y"`.
pub uninterp spec fn formatted_mdy(day: int) -> Seq<char>;

/// Reads a date written as `mm/dd/yy` with `chrono::NaiveDate::parse_from_str`.
/// Claimed: the result is the named result `parsed_mdy` of the text.
#[verifier::external_body]
pub fn parse_mdy(s: &str) -> (r: Option<Date>)
    ensures
        day_of(r) == parsed_mdy(s@),
{
    match chrono::NaiveDate::parse_from_str(s, "%m/%d/%y") {
        Ok(d) => Some(Date { day: d.num_days_from_ce() }),
        Err(_) => None,
    }
}

/// Writes a date as `mm/dd/yy` with `chrono`'s `format`.
/// Claimed: the text is the named result `formatted_mdy` of the day.
#[verifier::external_body]
pub fn format_mdy(d: &Date) -> (r: String)
    ensures
        r@ == formatted_mdy(d@),
{
    chrono::NaiveDate::from_num_days_from_ce_opt(d.day).expect("day in range").format("%m/%d/%y").to_string()
}

/// Today's date in the local time zone, from `chrono::Local::now().date_naive()`.
/// Nothing is claimed of it beyond being a date that `chrono` can hold.
#[verifier::external_body]
pub fn local_today() -> (r: Date) {
    Date { day: chrono::Local::now().date_naive().num_days_from_ce() }
}

/// Seconds since the Unix epoch now, from `chrono::Local::now().timestamp()`.
/// Nothing is claimed of its value.
#[verifier::external_body]
pub fn local_timestamp() -> (r: i64) {
    chrono::Local::now().timestamp()
}

} // verus!
