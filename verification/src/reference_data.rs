//! Static reference data: currencies, credit entities, rate indices.

use vstd::prelude::*;
use vstd::string::StringExecFns;

use crate::dates::daycount::{Compounding, DayCount};
use crate::dates::rules::DateRule;
use crate::dates::Date;

verus! {

/// What a book reads of a settlement index: its id and, when the index
/// averages another over a determination window, the window's last day.
#[derive(Clone, Debug)]
pub struct SettlementIndex {
    pub id: String,
    pub average_window_end: Option<Date>,
}

/// A currency with its settlement rule and money-market day count.
#[derive(Clone, Debug)]
pub struct Currency {
    pub id: String,
    pub settlement: DateRule,
    pub day_count: DayCount,
}

impl Currency {
    /// A currency with the given id, settlement rule and day count.
    pub fn new(id: &str, settlement: DateRule, day_count: DayCount) -> (r: Currency)
        ensures
            r.id@ == id@,
            r.settlement == settlement,
            r.day_count == day_count,
    {
        Currency { id: String::from_str(id), settlement, day_count }
    }
}

/// A legal entity that carries credit risk (an option writer, a bond
/// issuer), with the currency its credit curve is quoted in.
#[derive(Clone, Debug)]
pub struct CreditEntity {
    pub id: String,
    pub currency_id: String,
}

impl CreditEntity {
    /// A credit entity with the given id and currency id.
    pub fn new(id: &str, currency_id: &str) -> (r: CreditEntity)
        ensures
            r.id@ == id@,
            r.currency_id@ == currency_id@,
    {
        CreditEntity { id: String::from_str(id), currency_id: String::from_str(currency_id) }
    }
}

/// A floating-rate index such as USD-SOFR-3M.
#[derive(Clone, Debug)]
pub struct RateIndex {
    pub id: String,
    pub currency_id: String,
    pub tenor_months: u32,
    pub day_count: DayCount,
    pub compounding: Compounding,
    pub fixing_source: String,
}

impl RateIndex {
    /// A rate index with the given terms.
    pub fn new(
        id: &str,
        currency_id: &str,
        tenor_months: u32,
        day_count: DayCount,
        compounding: Compounding,
        fixing_source: &str,
    ) -> (r: RateIndex)
        ensures
            r.id@ == id@,
            r.currency_id@ == currency_id@,
            r.tenor_months == tenor_months,
            r.day_count == day_count,
            r.compounding == compounding,
            r.fixing_source@ == fixing_source@,
    {
        RateIndex {
            id: String::from_str(id),
            currency_id: String::from_str(currency_id),
            tenor_months,
            day_count,
            compounding,
            fixing_source: String::from_str(fixing_source),
        }
    }
}

} // verus!
