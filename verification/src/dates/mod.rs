//! Calendar dates and instants.

pub mod civil;
pub mod instant;
mod order;
pub mod calendar;
pub mod rules;
pub mod daycount;

use vstd::prelude::*;
use vstd::string::StringExecFns;

use crate::error::Error;
use civil::{
    day_number, lemma_day_number_order, lemma_day_number_range, max_day_number, max_year,
    min_day_number, min_year, month_of_day, spec_days_in_month, valid_ymd, weekday_of,
};

verus! {

/// The text `jiff` produces when it parses `s` as a civil date, as
/// (year, month, day); `None` when it does not parse.
pub uninterp spec fn jiff_parsed_date(s: Seq<char>) -> Option<(i16, i8, i8)>;

/// The ASCII digit for `d` (0..=9).
pub open spec fn digit_char(d: int) -> char {
    (d + 48) as char
}

/// The last `width` decimal digits of `n`, zero-padded on the left.
pub open spec fn padded_digits(n: int, width: nat) -> Seq<char>
    decreases width,
{
    if width == 0 {
        Seq::empty()
    } else {
        padded_digits(n / 10, (width - 1) as nat).push(digit_char(n % 10))
    }
}

/// The text of the civil date `year-month-day` in ISO 8601 form: the year
/// as four zero-padded digits (after `-00` when negative), then month and
/// day as two zero-padded digits each, separated by hyphens.
pub open spec fn iso_date(year: i16, month: i8, day: i8) -> Seq<char> {
    (if year < 0 {
        "-00"@
    } else {
        Seq::empty()
    }) + padded_digits(if year < 0 {
        -year
    } else {
        year as int
    }, 4) + "-"@ + padded_digits(month as int, 2) + "-"@ + padded_digits(day as int, 2)
}

/// Validates `year-month-day` with `jiff::civil::Date::new`: the contract
/// claims it succeeds exactly on the dates of the supported range that
/// exist; the error text is jiff's own and is not described.
#[verifier::external_body]
fn jiff_date_new(year: i16, month: i8, day: i8) -> (r: core::result::Result<(), String>)
    ensures
        r is Ok <==> valid_ymd(year as int, month as int, day as int),
{
    match jiff::civil::Date::new(year, month, day) {
        Ok(_) => Ok(()),
        Err(e) => Err(e.to_string()),
    }
}

/// Adds `days` days to a valid date with `jiff::civil::Date::checked_add`
/// (a `jiff::Span` of days). The contract claims the result is the date
/// whose day number is the sum, and that it fails exactly when that day
/// number leaves the supported range.
#[verifier::external_body]
fn jiff_checked_add_days(year: i16, month: i8, day: i8, days: i32) -> (r: Option<(i16, i8, i8)>)
    requires
        valid_ymd(year as int, month as int, day as int),
        -7304484 <= days <= 7304484,
    ensures
        r is Some <==> min_day_number() <= day_number(year as int, month as int, day as int)
            + days <= max_day_number(),
        r matches Some((y, m, d)) ==> valid_ymd(y as int, m as int, d as int) && day_number(
            y as int,
            m as int,
            d as int,
        ) == day_number(year as int, month as int, day as int) + days,
{
    let date = match jiff::civil::Date::new(year, month, day) {
        Ok(date) => date,
        Err(_) => return None,
    };
    match date.checked_add(jiff::Span::new().days(days)) {
        Ok(r) => Some((r.year(), r.month(), r.day())),
        Err(_) => None,
    }
}

/// Parses `s` with `jiff`'s `FromStr` for `jiff::civil::Date`. The contract
/// names the result and claims that a parsed date is a valid one; the
/// error text is jiff's own.
#[verifier::external_body]
fn jiff_parse_date(s: &str) -> (r: core::result::Result<(i16, i8, i8), String>)
    ensures
        r is Ok <==> jiff_parsed_date(s@) is Some,
        r matches Ok(t) ==> jiff_parsed_date(s@) == Some(t) && valid_ymd(
            t.0 as int,
            t.1 as int,
            t.2 as int,
        ),
{
    match s.parse::<jiff::civil::Date>() {
        Ok(d) => Ok((d.year(), d.month(), d.day())),
        Err(e) => Err(e.to_string()),
    }
}

/// Renders a valid date with `jiff`'s `Display` for `jiff::civil::Date`.
/// The contract claims jiff's ISO 8601 layout (its date printer): a
/// four-digit zero-padded year, `-00` before it when negative, and
/// two-digit month and day, joined by hyphens.
#[verifier::external_body]
fn jiff_render_date(year: i16, month: i8, day: i8) -> (r: String)
    requires
        valid_ymd(year as int, month as int, day as int),
    ensures
        r@ == iso_date(year, month, day),
{
    match jiff::civil::Date::new(year, month, day) {
        Ok(d) => d.to_string(),
        Err(e) => e.to_string(),
    }
}

/// A calendar day without time of day or time zone: curve pillars,
/// holidays, settlement dates.
#[derive(Clone, Copy, PartialEq, Eq, Ord, Hash, Debug)]
pub struct Date {
    year: i16,
    month: i8,
    day: i8,
}

impl Date {
    /// Year component.
    pub closed spec fn spec_year(self) -> int {
        self.year as int
    }

    /// Month component (1..=12).
    pub closed spec fn spec_month(self) -> int {
        self.month as int
    }

    /// Day-of-month component.
    pub closed spec fn spec_day(self) -> int {
        self.day as int
    }

    /// Every `Date` is a valid civil date of the supported range.
    #[verifier::type_invariant]
    pub open spec fn wf(self) -> bool {
        valid_ymd(self.spec_year(), self.spec_month(), self.spec_day())
    }

    /// Two dates with the same components are the same date.
    pub proof fn lemma_components_determine(a: Date, b: Date)
        requires
            a.spec_year() == b.spec_year(),
            a.spec_month() == b.spec_month(),
            a.spec_day() == b.spec_day(),
        ensures
            a == b,
    {
    }

    /// Day number of a valid date lies in the supported range, and two
    /// valid dates are equal exactly when their day numbers are.
    pub proof fn lemma_view_facts(a: Date, b: Date)
        requires
            a.wf(),
            b.wf(),
        ensures
            min_day_number() <= a@ <= max_day_number(),
            (a == b) <==> (a@ == b@),
    {
        lemma_day_number_range(a.spec_year(), a.spec_month(), a.spec_day());
        lemma_day_number_order(
            a.spec_year(),
            a.spec_month(),
            a.spec_day(),
            b.spec_year(),
            b.spec_month(),
            b.spec_day(),
        );
    }

    /// The month of a valid date is the month of its day number.
    pub proof fn lemma_month_of_day(a: Date)
        requires
            a.wf(),
        ensures
            month_of_day(a@) == a.spec_month(),
    {
        let (y, m, d) = choose|y: int, m: int, d: int|
            valid_ymd(y, m, d) && day_number(y, m, d) == a@;
        assert(valid_ymd(a.spec_year(), a.spec_month(), a.spec_day()) && day_number(
            a.spec_year(),
            a.spec_month(),
            a.spec_day(),
        ) == a@);
        lemma_day_number_order(y, m, d, a.spec_year(), a.spec_month(), a.spec_day());
    }

    /// Moving a date `n` days forward and then `n` days back returns to
    /// the same date.
    pub proof fn lemma_shift_roundtrip(a: Date, b: Date, c: Date, n: int)
        requires
            a.wf(),
            c.wf(),
            b@ == a@ + n,
            c@ == b@ - n,
        ensures
            c == a,
    {
        Date::lemma_view_facts(a, c);
    }

    /// Create a date from year, month, day; the date must exist.
    pub fn new(year: i16, month: i8, day: i8) -> (r: Date)
        requires
            valid_ymd(year as int, month as int, day as int),
        ensures
            r.spec_year() == year,
            r.spec_month() == month,
            r.spec_day() == day,
    {
        Date { year, month, day }
    }

    /// Create a date from year, month, day; an error if it does not exist.
    pub fn try_new(year: i16, month: i8, day: i8) -> (r: crate::error::Result<Date>)
        ensures
            r is Ok <==> valid_ymd(year as int, month as int, day as int),
            r matches Ok(d) ==> d.spec_year() == year && d.spec_month() == month && d.spec_day()
                == day,
            r matches Err(e) ==> e is Date,
    {
        match jiff_date_new(year, month, day) {
            Ok(()) => Ok(Date { year, month, day }),
            Err(msg) => Err(Error::Date(msg)),
        }
    }

    /// Year component.
    pub fn year(&self) -> (r: i16)
        ensures
            r == self.spec_year(),
            min_year() <= r <= max_year(),
    {
        proof {
            use_type_invariant(self);
        }
        self.year
    }

    /// Month component (1..=12).
    pub fn month(&self) -> (r: i8)
        ensures
            r == self.spec_month(),
            1 <= r <= 12,
    {
        proof {
            use_type_invariant(self);
        }
        self.month
    }

    /// Day component (1..=31).
    pub fn day(&self) -> (r: i8)
        ensures
            r == self.spec_day(),
            1 <= r <= spec_days_in_month(self.spec_year(), self.spec_month()),
            r <= 31,
    {
        proof {
            use_type_invariant(self);
        }
        self.day
    }

    /// Days since 1970-01-01.
    pub(crate) fn serial(&self) -> (r: i32)
        ensures
            r == self@,
            min_day_number() <= r <= max_day_number(),
    {
        proof {
            use_type_invariant(self);
            lemma_day_number_range(self.spec_year(), self.spec_month(), self.spec_day());
        }
        let y: i32 = if self.month <= 2 {
            self.year as i32 - 1
        } else {
            self.year as i32
        };
        let m: i32 = if self.month > 2 {
            self.month as i32 - 3
        } else {
            self.month as i32 + 9
        };
        // Shift the year by a multiple of 400 so that every division below
        // has a non-negative dividend.
        let a: i32 = y + 10000;
        proof {
            assert(y / 4 == a / 4 - 2500);
            assert(y / 100 == a / 100 - 100);
            assert(y / 400 == a / 400 - 25);
        }
        365 * y + (a / 4 - 2500) - (a / 100 - 100) + (a / 400 - 25) + (153 * m + 2) / 5
            + self.day as i32 - 1 - 719468
    }

    /// Day of week: 1 = Monday .. 7 = Sunday (ISO 8601).
    pub fn weekday(&self) -> (r: i8)
        ensures
            r == weekday_of(self@),
            1 <= r <= 7,
    {
        let n = self.serial();
        let x: i32 = n + 4371587;
        proof {
            assert((x % 7) == (n + 3) % 7);
        }
        (x % 7 + 1) as i8
    }

    /// The date `days` days after this one (before, for negative `days`);
    /// the result must lie in the supported range.
    pub fn add_days(self, days: i32) -> (r: Date)
        requires
            min_day_number() <= self@ + days <= max_day_number(),
        ensures
            r@ == self@ + days,
    {
        proof {
            use_type_invariant(&self);
            lemma_day_number_range(self.spec_year(), self.spec_month(), self.spec_day());
        }
        match jiff_checked_add_days(self.year, self.month, self.day, days) {
            Some((y, m, d)) => Date { year: y, month: m, day: d },
            None => self,
        }
    }

    /// The date `days` days before this one; the result must lie in the
    /// supported range.
    pub fn sub_days(self, days: i32) -> (r: Date)
        requires
            min_day_number() <= self@ - days <= max_day_number(),
        ensures
            r@ == self@ - days,
    {
        proof {
            use_type_invariant(&self);
            lemma_day_number_range(self.spec_year(), self.spec_month(), self.spec_day());
        }
        self.add_days(-days)
    }

    /// Number of days from `other` to this date (negative when `other`
    /// is later).
    pub fn days_since(&self, other: &Date) -> (r: i32)
        ensures
            r == self@ - other@,
    {
        self.serial() - other.serial()
    }

    /// True if this date is strictly before `other`.
    pub fn is_before(&self, other: &Date) -> (r: bool)
        ensures
            r == (self@ < other@),
    {
        self.serial() < other.serial()
    }

    /// True if this date is before or on `other`.
    pub fn is_on_or_before(&self, other: &Date) -> (r: bool)
        ensures
            r == (self@ <= other@),
    {
        self.serial() <= other.serial()
    }

    /// True if this date and `other` are the same day.
    pub fn same_day(&self, other: &Date) -> (r: bool)
        ensures
            r == (self@ == other@),
            r == (*self == *other),
    {
        proof {
            use_type_invariant(self);
            use_type_invariant(other);
            Date::lemma_view_facts(*self, *other);
        }
        self.serial() == other.serial()
    }

    /// The date as ISO 8601 text (`YYYY-MM-DD`).
    pub fn to_string(&self) -> (r: String)
        ensures
            r@ == iso_date(self.spec_year() as i16, self.spec_month() as i8, self.spec_day() as i8),
    {
        proof {
            use_type_invariant(self);
        }
        jiff_render_date(self.year, self.month, self.day)
    }

    /// Parse a date from text such as `2025-06-14`.
    pub fn parse(s: &str) -> (r: crate::error::Result<Date>)
        ensures
            r is Ok <==> jiff_parsed_date(s@) is Some,
            r matches Ok(d) ==> jiff_parsed_date(s@) == Some(
                (d.spec_year() as i16, d.spec_month() as i8, d.spec_day() as i8),
            ),
            r matches Err(e) ==> e is Date,
    {
        match jiff_parse_date(s) {
            Ok((y, m, d)) => Ok(Date { year: y, month: m, day: d }),
            Err(msg) => Err(Error::Date(msg)),
        }
    }
}

impl View for Date {
    type V = int;

    /// A date is viewed as its day number (days since 1970-01-01).
    open spec fn view(&self) -> int {
        day_number(self.spec_year(), self.spec_month(), self.spec_day())
    }
}

} // verus!
