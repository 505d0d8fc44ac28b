//! Cash flows and date schedules.

pub mod schedule;

pub use schedule::{add_months, CashFlowSchedule};

use vstd::prelude::*;

use std::sync::Arc;

use crate::dates::civil::{spec_days_in_month, spec_is_leap_year};
use crate::dates::Date;
use crate::decimal::Decimal;
use crate::reference_data::Currency;

verus! {

/// An amount of money paid in a currency on a date.
#[derive(Clone, Debug)]
pub struct CashFlow {
    pub amount: Decimal,
    pub currency: Arc<Currency>,
    pub pay_date: Date,
}

impl CashFlow {
    /// The cash flow of `amount` in `currency` on `pay_date`.
    pub fn new(amount: Decimal, currency: Arc<Currency>, pay_date: Date) -> (r: CashFlow)
        ensures
            r.amount == amount,
            r.currency == currency,
            r.pay_date == pay_date,
    {
        CashFlow { amount, currency, pay_date }
    }
}

/// Frequency for generating periodic dates.
#[derive(Clone, Copy, Debug, PartialEq, Eq, Hash)]
pub enum Frequency {
    Monthly,
    Quarterly,
    SemiAnnual,
    Annual,
}

/// Number of months in one period of `f`.
pub open spec fn spec_months(f: Frequency) -> int {
    match f {
        Frequency::Monthly => 1,
        Frequency::Quarterly => 3,
        Frequency::SemiAnnual => 6,
        Frequency::Annual => 12,
    }
}

/// Number of periods of `f` in a year.
pub open spec fn spec_per_year(f: Frequency) -> int {
    12int / spec_months(f)
}

impl Frequency {
    /// Number of periods in a year (12 monthly, 4 quarterly, ...).
    pub fn per_year(&self) -> (r: u32)
        ensures
            r == spec_per_year(*self),
            1 <= r <= 12,
    {
        match self {
            Frequency::Monthly => 12,
            Frequency::Quarterly => 4,
            Frequency::SemiAnnual => 2,
            Frequency::Annual => 1,
        }
    }

    /// Number of months in one period.
    pub fn months(&self) -> (r: i32)
        ensures
            r == spec_months(*self),
    {
        match self {
            Frequency::Monthly => 1,
            Frequency::Quarterly => 3,
            Frequency::SemiAnnual => 6,
            Frequency::Annual => 12,
        }
    }
}

/// Number of days in `month` (1..=12) of `year`.
pub fn days_in_month(year: i16, month: i8) -> (r: i8)
    requires
        1 <= month <= 12,
    ensures
        r == spec_days_in_month(year as int, month as int),
{
    match month {
        1 | 3 | 5 | 7 | 8 | 10 | 12 => 31,
        4 | 6 | 9 | 11 => 30,
        _ => {
            if (year % 4 == 0 && year % 100 != 0) || year % 400 == 0 {
                29
            } else {
                28
            }
        },
    }
}

} // verus!
