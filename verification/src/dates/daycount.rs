//! Day count conventions and compounding conventions.

use vstd::prelude::*;

use super::civil::spec_is_leap_year;
use super::Date;
use super::civil::{day_number, max_year, valid_ymd};
use crate::decimal::{checked_product, checked_quotient, checked_sum, zero_parts, Decimal, DecimalParts};

verus! {

/// Day count convention for computing year fractions between dates.
#[derive(Clone, Copy, Debug, PartialEq, Eq, Hash, Structural)]
pub enum DayCount {
    /// Actual/360 — used by money markets, LIBOR, EURIBOR
    Act360,
    /// Actual/365 Fixed — used by GBP LIBOR, many bond markets
    Act365Fixed,
    /// 30/360 (Bond Basis) — used by US corporate bonds
    Thirty360,
    /// Actual/Actual (ISDA) — used by government bonds
    ActActIsda,
}

/// Compounding convention for interest rate calculations.
#[derive(Clone, Copy, Debug, PartialEq, Eq, Hash)]
pub enum Compounding {
    /// Continuous: df = exp(-r * t)
    Continuous,
    /// Simple: df = 1 / (1 + r * t)
    Simple,
    /// Annual: df = 1 / (1 + r)^t
    Annual,
    /// Semi-annual: df = 1 / (1 + r/2)^(2t)
    SemiAnnual,
    /// Quarterly: df = 1 / (1 + r/4)^(4t)
    Quarterly,
    /// Daily: df = 1 / (1 + r/365)^(365t)
    Daily,
}

/// 30/360 day count between two civil dates (both day-of-month values
/// given; 31 counts as 30, and the end's 31 counts as 30 when the start
/// is on the 30th or 31st).
pub open spec fn spec_thirty360(y1: int, m1: int, d1: int, y2: int, m2: int, d2: int) -> int {
    let e1 = if d1 == 31 { 30 } else { d1 };
    let e2 = if d2 == 31 && e1 >= 30 { 30 } else { d2 };
    360 * (y2 - y1) + 30 * (m2 - m1) + (e2 - e1)
}

/// The 30/360 count treats every month as 30 days and every year as 360:
/// the same day of the month a whole number `k` of years later is `360 k`
/// days on (for days up to the 30th), moving the end a year adds 360 days
/// and a month adds 30, within a month the count is the difference of the
/// days, and a 31st counts as the 30th, at the end only when the start is
/// on the 30th or 31st.
pub proof fn lemma_thirty360_counts_thirty_day_months(
    y1: int,
    m1: int,
    d1: int,
    y2: int,
    m2: int,
    d2: int,
    k: int,
)
    ensures
        1 <= d1 <= 30 ==> spec_thirty360(y1, m1, d1, y1 + k, m1, d1) == 360 * k,
        spec_thirty360(y1, m1, d1, y2 + 1, m2, d2) == spec_thirty360(y1, m1, d1, y2, m2, d2) + 360,
        spec_thirty360(y1, m1, d1, y2, m2 + 1, d2) == spec_thirty360(y1, m1, d1, y2, m2, d2) + 30,
        1 <= d1 <= 30 && 1 <= d2 <= 30 ==> spec_thirty360(y1, m1, d1, y1, m1, d2) == d2 - d1,
        spec_thirty360(y1, m1, 31, y2, m2, d2) == spec_thirty360(y1, m1, 30, y2, m2, d2),
        30 <= d1 <= 31 ==> spec_thirty360(y1, m1, d1, y2, m2, 31) == spec_thirty360(y1, m1, d1, y2, m2, 30),
        d1 < 30 ==> spec_thirty360(y1, m1, d1, y2, m2, 31) == spec_thirty360(y1, m1, d1, y2, m2, 30) + 1,
{
}

/// Days in the year `year`.
pub open spec fn spec_year_length(year: int) -> int {
    if spec_is_leap_year(year) {
        366
    } else {
        365
    }
}

/// 30/360 day count: assumes 30-day months, 360-day years.
pub fn thirty360_day_count(from: Date, to: Date) -> (r: i32)
    ensures
        r == spec_thirty360(
            from.spec_year(),
            from.spec_month(),
            from.spec_day(),
            to.spec_year(),
            to.spec_month(),
            to.spec_day(),
        ),
{
    let (y1, m1, mut d1) = (from.year() as i32, from.month() as i32, from.day() as i32);
    let (y2, m2, mut d2) = (to.year() as i32, to.month() as i32, to.day() as i32);
    if d1 == 31 {
        d1 = 30;
    }
    if d2 == 31 && d1 >= 30 {
        d2 = 30;
    }
    360 * (y2 - y1) + 30 * (m2 - m1) + (d2 - d1)
}

/// True if `year` is a leap year (proleptic Gregorian).
pub fn is_leap_year(year: i16) -> (r: bool)
    ensures
        r == spec_is_leap_year(year as int),
{
    (year % 4 == 0 && year % 100 != 0) || year % 400 == 0
}

/// Number of days in `year` (365 or 366).
pub fn year_length(year: i16) -> (r: i32)
    ensures
        r == spec_year_length(year as int),
{
    if is_leap_year(year) {
        366
    } else {
        365
    }
}

/// Parts of the integer `n` as a decimal.
pub open spec fn int_parts(n: int) -> DecimalParts {
    (n < 0, if n < 0 {
        -n
    } else {
        n
    }, 0int)
}

/// `base × n / d` with `rust_decimal`'s operations; `None` on overflow.
pub open spec fn scaled(base: DecimalParts, n: int, d: int) -> Option<DecimalParts> {
    match checked_product(base, int_parts(n)) {
        Some(p) => checked_quotient(p, int_parts(d)),
        None => None,
    }
}

/// Act/Act (ISDA) accrual of `base` from `from` to `to` (dates as year and
/// day number): the days in each calendar year over that year's length;
/// zero from a date to itself.
pub open spec fn spec_act_act_isda_accrue(
    base: DecimalParts,
    y1: int,
    n1: int,
    y2: int,
    n2: int,
) -> Option<DecimalParts> {
    if n1 == n2 {
        Some(zero_parts())
    } else if y1 == y2 {
        scaled(base, n2 - n1, spec_year_length(y1))
    } else {
        let full = if y2 - y1 - 1 > 0 {
            y2 - y1 - 1
        } else {
            0
        };
        match (
            scaled(base, day_number(y1 + 1, 1, 1) - n1, spec_year_length(y1)),
            checked_product(base, int_parts(full)),
            scaled(base, n2 - day_number(y2, 1, 1), spec_year_length(y2)),
        ) {
            (Some(first), Some(middle), Some(last)) => match checked_sum(first, middle) {
                Some(fm) => checked_sum(fm, last),
                None => None,
            },
            _ => None,
        }
    }
}

/// Accrual of `base` under `dc` from `from` to `to`; `None` on overflow.
pub open spec fn spec_accrue(dc: DayCount, base: DecimalParts, from: Date, to: Date) -> Option<
    DecimalParts,
> {
    match dc {
        DayCount::Act360 => scaled(base, to@ - from@, 360),
        DayCount::Act365Fixed => scaled(base, to@ - from@, 365),
        DayCount::Thirty360 => scaled(
            base,
            spec_thirty360(
                from.spec_year(),
                from.spec_month(),
                from.spec_day(),
                to.spec_year(),
                to.spec_month(),
                to.spec_day(),
            ),
            360,
        ),
        DayCount::ActActIsda => spec_act_act_isda_accrue(
            base,
            from.spec_year(),
            from@,
            to.spec_year(),
            to@,
        ),
    }
}

/// Accrual over a whole number `k` of years, from a day up to the 30th to
/// the same day `k` years on: 30/360 accrues `base × 360k / 360`, Act/360
/// the actual days over 360 and Act/365F the actual days over 365.
pub proof fn lemma_accrue_bases(base: DecimalParts, from: Date, to: Date, k: int)
    requires
        1 <= from.spec_day() <= 30,
        to.spec_year() == from.spec_year() + k,
        to.spec_month() == from.spec_month(),
        to.spec_day() == from.spec_day(),
    ensures
        spec_accrue(DayCount::Thirty360, base, from, to) == scaled(base, 360 * k, 360),
        spec_accrue(DayCount::Act360, base, from, to) == scaled(base, to@ - from@, 360),
        spec_accrue(DayCount::Act365Fixed, base, from, to) == scaled(base, to@ - from@, 365),
{
    lemma_thirty360_counts_thirty_day_months(
        from.spec_year(),
        from.spec_month(),
        from.spec_day(),
        to.spec_year(),
        to.spec_month(),
        to.spec_day(),
        k,
    );
}

/// Act/Act (ISDA) needs January 1 of the year after `from` when the years
/// differ.
pub open spec fn accrue_dates_ok(dc: DayCount, from: Date, to: Date) -> bool {
    dc == DayCount::ActActIsda && from.spec_year() != to.spec_year() ==> from.spec_year() < max_year()
}

fn scaled_exec(base: Decimal, n: i32, d: i32) -> (r: Option<Decimal>)
    ensures
        r matches Some(x) ==> scaled(base@, n as int, d as int) == Some(x@),
        r is None ==> scaled(base@, n as int, d as int) is None,
{
    match base.checked_mul(Decimal::from_i64(n as i64)) {
        Some(p) => p.checked_div(Decimal::from_i64(d as i64)),
        None => None,
    }
}

/// Act/Act (ISDA) accrual; `None` on overflow.
fn act_act_isda_accrue(base: Decimal, from: Date, to: Date) -> (r: Option<Decimal>)
    requires
        from.spec_year() != to.spec_year() ==> from.spec_year() < max_year(),
    ensures
        r matches Some(x) ==> spec_act_act_isda_accrue(base@, from.spec_year(), from@, to.spec_year(), to@)
            == Some(x@),
        r is None ==> spec_act_act_isda_accrue(base@, from.spec_year(), from@, to.spec_year(), to@) is None,
{
    if from.same_day(&to) {
        return Some(Decimal::zero());
    }
    let y1 = from.year();
    let y2 = to.year();
    if y1 == y2 {
        return scaled_exec(base, to.days_since(&from), year_length(y1));
    }
    let end_of_y1 = Date::new(y1 + 1, 1, 1);
    let start_of_y2 = Date::new(y2, 1, 1);
    let full: i32 = if (y2 as i32) - (y1 as i32) - 1 > 0 {
        (y2 as i32) - (y1 as i32) - 1
    } else {
        0
    };
    let first = scaled_exec(base, end_of_y1.days_since(&from), year_length(y1));
    let middle = base.checked_mul(Decimal::from_i64(full as i64));
    let last = scaled_exec(base, to.days_since(&start_of_y2), year_length(y2));
    match (first, middle, last) {
        (Some(f), Some(m), Some(l)) => match f.checked_add(m) {
            Some(fm) => fm.checked_add(l),
            None => None,
        },
        _ => None,
    }
}

impl DayCount {
    /// Accrual of `base` over `[from, to]` in exact decimal arithmetic:
    /// `base × days / basis` (30/360 counts days its own way; Act/Act
    /// splits by calendar year). `None` when the arithmetic overflows a
    /// decimal.
    pub fn checked_accrue(&self, base: Decimal, from: Date, to: Date) -> (r: Option<Decimal>)
        requires
            accrue_dates_ok(*self, from, to),
        ensures
            r matches Some(x) ==> spec_accrue(*self, base@, from, to) == Some(x@),
            r is None ==> spec_accrue(*self, base@, from, to) is None,
    {
        match self {
            DayCount::Act360 => scaled_exec(base, to.days_since(&from), 360),
            DayCount::Act365Fixed => scaled_exec(base, to.days_since(&from), 365),
            DayCount::Thirty360 => scaled_exec(base, thirty360_day_count(from, to), 360),
            DayCount::ActActIsda => act_act_isda_accrue(base, from, to),
        }
    }

    /// Accrual of `base` over `[from, to]` in exact decimal arithmetic (see
    /// [`DayCount::checked_accrue`]); the arithmetic must not overflow.
    pub fn accrue(&self, base: Decimal, from: Date, to: Date) -> (r: Decimal)
        requires
            accrue_dates_ok(*self, from, to),
            spec_accrue(*self, base@, from, to) is Some,
        ensures
            spec_accrue(*self, base@, from, to) == Some(r@),
    {
        match self.checked_accrue(base, from, to) {
            Some(x) => x,
            None => Decimal::zero(),
        }
    }
}

} // verus!
