//! Financial instruments: futures, options, equities, payments, swaps,
//! bonds, FX forwards and baskets, and the settlement terms they share.

use std::sync::Arc;

use vstd::prelude::*;
use vstd::string::StringExecFns;

use crate::cashflows::{spec_per_year, CashFlow, Frequency};
use crate::dates::calendar::Calendar;
use crate::dates::daycount::DayCount;
use crate::dates::instant::{parsed_time, zone_error, zoned_at, Time, Timestamp, ZonedDateTime};
use crate::dates::rules::{apply_in_range, rule_sorted, spec_apply, DateRule};
use crate::dates::Date;
use crate::decimal::{checked_difference, checked_product, checked_quotient, Decimal, DecimalParts};
use crate::reference_data::Currency;

verus! {

/// Whether an instrument clears through a central counterparty.
#[derive(Clone, Copy, Debug, PartialEq, Eq, Hash)]
pub enum ClearingStatus {
    Cleared,
    Uncleared,
}

impl ClearingStatus {
    /// The JSON vocabulary: `"cleared"` / `"uncleared"`.
    pub fn as_str(&self) -> (r: &'static str)
        ensures
            r@ == (match self {
                ClearingStatus::Cleared => "cleared"@,
                ClearingStatus::Uncleared => "uncleared"@,
            }),
    {
        match self {
            ClearingStatus::Cleared => {
                proof {
                    reveal_strlit("cleared");
                }
                "cleared"
            },
            ClearingStatus::Uncleared => {
                proof {
                    reveal_strlit("uncleared");
                }
                "uncleared"
            },
        }
    }
}

/// Put or call.
#[derive(Clone, Copy, Debug, PartialEq, Eq, Hash)]
pub enum PutOrCall {
    Put,
    Call,
}

/// Exercise style for options.
#[derive(Clone, Copy, Debug, PartialEq, Eq, Hash)]
pub enum ExerciseStyle {
    European,
    American,
}

/// How an option settles at expiry.
#[derive(Clone, Copy, Debug, PartialEq, Eq, Hash)]
pub enum OptionSettlement {
    Cash,
    Physical,
}

/// Whether a swap leg is paid or received.
#[derive(Clone, Copy, Debug, PartialEq, Eq, Hash)]
pub enum PayReceive {
    Pay,
    Receive,
}

/// Parts of the intrinsic value of an option with strike `strike` at
/// underlying price `underlying`: the payoff difference, floored at zero.
pub open spec fn spec_intrinsic(
    put_or_call: PutOrCall,
    strike: DecimalParts,
    underlying: DecimalParts,
) -> DecimalParts {
    let d = match put_or_call {
        PutOrCall::Call => checked_difference(underlying, strike).unwrap(),
        PutOrCall::Put => checked_difference(strike, underlying).unwrap(),
    };
    if d.0 && d.1 != 0 {
        (false, 0int, 0int)
    } else {
        d
    }
}

/// Where, when and with what payment lag an instrument settles.
#[derive(Clone, Debug)]
pub struct Settlement {
    pub venue: String,
    pub session: String,
    pub time: Time,
    /// IANA time zone name of the settlement time.
    pub timezone: String,
    pub payment_lag: DateRule,
}

impl Settlement {
    /// Settlement terms; `time` is `HH:MM` text and must parse.
    pub fn new(venue: &str, session: &str, time: &str, timezone: &str, payment_lag: DateRule) -> (r:
        Settlement)
        requires
            parsed_time(time@) is Some,
        ensures
            r.venue@ == venue@,
            r.session@ == session@,
            parsed_time(time@) == Some((r.time.spec_hour(), r.time.spec_minute())),
            r.timezone@ == timezone@,
            r.payment_lag == payment_lag,
    {
        let t = match Time::parse(time) {
            Ok(t) => t,
            Err(_) => Time::new(0, 0),
        };
        Settlement {
            venue: String::from_str(venue),
            session: String::from_str(session),
            time: t,
            timezone: String::from_str(timezone),
            payment_lag,
        }
    }

    /// Combine this settlement's time and time zone with a calendar date:
    /// the settlement instant, or an instrument error naming the zone when
    /// it is unknown or cannot place the time.
    pub fn at_date(&self, date: Date) -> (r: crate::error::Result<ZonedDateTime>)
        ensures
            r matches Err(e) ==> zone_error(e),
    {
        zoned_at(date, self.time, self.timezone.as_str())
    }

    /// The date a trade on `date` pays: the payment lag applied to it.
    pub fn pay_date(&self, date: Date) -> (r: Date)
        requires
            rule_sorted(self.payment_lag),
            apply_in_range(self.payment_lag, date@),
        ensures
            r@ == spec_apply(self.payment_lag, date@),
    {
        self.payment_lag.apply(date)
    }

    /// Over-the-counter terms: 17:00 New York close, paid two weekdays later.
    pub fn otc() -> (r: Settlement)
        ensures
            r.venue@ == "OTC"@,
            r.session@ == "CLOSE"@,
            r.time.spec_hour() == 17 && r.time.spec_minute() == 0,
            r.timezone@ == "America/New_York"@,
            r.payment_lag == (DateRule::BusinessDays {
                calendar: Calendar::Weekday,
                step: 2,
                slip_forward: true,
            }),
    {
        Settlement {
            venue: String::from_str("OTC"),
            session: String::from_str("CLOSE"),
            time: Time::new(17, 0),
            timezone: String::from_str("America/New_York"),
            payment_lag: DateRule::step_forward(Calendar::Weekday, 2),
        }
    }
}

/// An exchange-traded future on an index.
#[derive(Clone, Debug)]
pub struct Future {
    pub id: String,
    /// Id of the settlement index the future is written on.
    pub underlying: String,
    pub currency: Arc<Currency>,
    pub settlement: Settlement,
    pub clearing: ClearingStatus,
    pub expiry: Date,
    /// Units of the underlying per contract (1000 bbl for Brent).
    pub contract_size: Decimal,
    pub tick_size: Decimal,
}

/// Whether a future expiring on the day numbered `expiry` has expired:
/// past its settlement instant `settle` (nanoseconds since the epoch) when
/// that instant is known, else when the spot day is past expiry.
pub open spec fn spec_expired(settle: Option<int>, as_of: int, spot_day: int, expiry: int) -> bool {
    match settle {
        Some(t) => as_of > t,
        None => spot_day > expiry,
    }
}

/// Whether a future expiring on `expiry` has expired by the pricing
/// instant `as_of` on spot date `spot_date`, given its settlement instant
/// on the expiry date when that could be placed.
pub fn expired_by(settle: Option<Timestamp>, as_of: Timestamp, spot_date: Date, expiry: Date) -> (r: bool)
    ensures
        r == spec_expired(
            match settle {
                Some(t) => Some(t@),
                None => None,
            },
            as_of@,
            spot_date@,
            expiry@,
        ),
{
    match settle {
        Some(t) => t.is_before(&as_of),
        None => expiry.is_before(&spot_date),
    }
}

impl Future {
    /// Whether the future has expired by the pricing instant `as_of` on
    /// spot date `spot_date`: past its settlement instant on the expiry
    /// date, or, when the settlement zone cannot place that instant, past
    /// the expiry date.
    pub fn expired_as_of(&self, as_of: Timestamp, spot_date: Date) -> (r: bool)
        ensures
            exists|settle: Option<int>| r == spec_expired(settle, as_of@, spot_date@, self.expiry@),
    {
        let settle = match self.settlement.at_date(self.expiry) {
            Ok(z) => Some(z.timestamp()),
            Err(_) => None,
        };
        expired_by(settle, as_of, spot_date, self.expiry)
    }

    /// A future with the given terms.
    pub fn new(
        id: &str,
        underlying: &str,
        currency: Arc<Currency>,
        settlement: Settlement,
        clearing: ClearingStatus,
        expiry: Date,
        contract_size: Decimal,
        tick_size: Decimal,
    ) -> (r: Future)
        ensures
            r.id@ == id@,
            r.underlying@ == underlying@,
            r.currency == currency,
            r.settlement == settlement,
            r.clearing == clearing,
            r.expiry == expiry,
            r.contract_size == contract_size,
            r.tick_size == tick_size,
    {
        Future {
            id: String::from_str(id),
            underlying: String::from_str(underlying),
            currency,
            settlement,
            clearing,
            expiry,
            contract_size,
            tick_size,
        }
    }
}

/// A European option on another instrument (usually a future).
#[derive(Clone, Debug)]
pub struct EuropeanOption {
    pub id: String,
    /// Id of the underlying instrument.
    pub underlying: String,
    /// Id of the writer's credit entity.
    pub credit_id: String,
    pub currency: Arc<Currency>,
    pub settlement: Settlement,
    pub clearing: ClearingStatus,
    pub expiry: Date,
    pub strike: Decimal,
    pub put_or_call: PutOrCall,
    pub exercise_style: ExerciseStyle,
    pub option_settlement: OptionSettlement,
}

impl EuropeanOption {
    /// A European option with the given terms.
    pub fn new(
        id: &str,
        underlying: &str,
        credit_id: &str,
        currency: Arc<Currency>,
        settlement: Settlement,
        clearing: ClearingStatus,
        expiry: Date,
        strike: Decimal,
        put_or_call: PutOrCall,
        option_settlement: OptionSettlement,
    ) -> (r: EuropeanOption)
        ensures
            r.id@ == id@,
            r.underlying@ == underlying@,
            r.credit_id@ == credit_id@,
            r.currency == currency,
            r.settlement == settlement,
            r.clearing == clearing,
            r.expiry == expiry,
            r.strike == strike,
            r.put_or_call == put_or_call,
            r.exercise_style == ExerciseStyle::European,
            r.option_settlement == option_settlement,
    {
        EuropeanOption {
            id: String::from_str(id),
            underlying: String::from_str(underlying),
            credit_id: String::from_str(credit_id),
            currency,
            settlement,
            clearing,
            expiry,
            strike,
            put_or_call,
            exercise_style: ExerciseStyle::European,
            option_settlement,
        }
    }

    /// The date the option pays: the settlement lag applied to expiry.
    pub fn pay_date(&self) -> (r: Date)
        requires
            rule_sorted(self.settlement.payment_lag),
            apply_in_range(self.settlement.payment_lag, self.expiry@),
        ensures
            r@ == spec_apply(self.settlement.payment_lag, self.expiry@),
    {
        self.settlement.pay_date(self.expiry)
    }

    /// Intrinsic value at the underlying price `underlying`: the call's
    /// `max(underlying - strike, 0)` or the put's `max(strike - underlying, 0)`.
    /// The difference must not overflow a decimal.
    pub fn intrinsic(&self, underlying: Decimal) -> (r: Decimal)
        requires
            self.put_or_call == PutOrCall::Call ==> checked_difference(underlying@, self.strike@) is Some,
            self.put_or_call == PutOrCall::Put ==> checked_difference(self.strike@, underlying@) is Some,
        ensures
            r@ == spec_intrinsic(self.put_or_call, self.strike@, underlying@),
    {
        let d = match self.put_or_call {
            PutOrCall::Call => underlying.checked_sub(self.strike),
            PutOrCall::Put => self.strike.checked_sub(underlying),
        };
        match d {
            Some(x) => {
                if x.is_sign_negative() && !x.is_zero() {
                    Decimal::zero()
                } else {
                    x
                }
            },
            None => Decimal::zero(),
        }
    }

    /// Intrinsic value, or `None` when the difference overflows a decimal.
    pub fn checked_intrinsic(&self, underlying: Decimal) -> (r: Option<Decimal>)
        ensures
            r is Some <==> (match self.put_or_call {
                PutOrCall::Call => checked_difference(underlying@, self.strike@) is Some,
                PutOrCall::Put => checked_difference(self.strike@, underlying@) is Some,
            }),
            r matches Some(x) ==> x@ == spec_intrinsic(self.put_or_call, self.strike@, underlying@),
    {
        let d = match self.put_or_call {
            PutOrCall::Call => underlying.checked_sub(self.strike),
            PutOrCall::Put => self.strike.checked_sub(underlying),
        };
        match d {
            Some(_) => Some(self.intrinsic(underlying)),
            None => None,
        }
    }
}

/// A share of a company.
#[derive(Clone, Debug)]
pub struct Equity {
    pub id: String,
    pub credit_id: String,
    pub currency: Arc<Currency>,
    pub settlement: Settlement,
}

impl Equity {
    /// An equity with the given terms.
    pub fn new(id: &str, credit_id: &str, currency: Arc<Currency>, settlement: Settlement) -> (r:
        Equity)
        ensures
            r.id@ == id@,
            r.credit_id@ == credit_id@,
            r.currency == currency,
            r.settlement == settlement,
    {
        Equity {
            id: String::from_str(id),
            credit_id: String::from_str(credit_id),
            currency,
            settlement,
        }
    }
}

/// A single fixed payment on a date.
#[derive(Clone, Debug)]
pub struct Payment {
    pub id: String,
    pub credit_id: String,
    pub amount: Decimal,
    pub currency: Arc<Currency>,
    pub settlement: Settlement,
    pub pay_date: Date,
}

impl Payment {
    /// A payment with the given terms.
    pub fn new(
        id: &str,
        credit_id: &str,
        amount: Decimal,
        currency: Arc<Currency>,
        settlement: Settlement,
        pay_date: Date,
    ) -> (r: Payment)
        ensures
            r.id@ == id@,
            r.credit_id@ == credit_id@,
            r.amount == amount,
            r.currency == currency,
            r.settlement == settlement,
            r.pay_date == pay_date,
    {
        Payment {
            id: String::from_str(id),
            credit_id: String::from_str(credit_id),
            amount,
            currency,
            settlement,
            pay_date,
        }
    }

    /// The payment as a cash flow: its amount, currency and date.
    pub fn cash_flow(&self) -> (r: CashFlow)
        ensures
            r.amount == self.amount,
            r.currency == self.currency,
            r.pay_date == self.pay_date,
    {
        CashFlow::new(self.amount, self.currency.clone(), self.pay_date)
    }
}

/// The fixed leg of an interest rate swap.
#[derive(Clone, Debug)]
pub struct FixedLeg {
    pub notional: Decimal,
    /// Fixed rate (0.03 for 3%).
    pub rate: Decimal,
    pub day_count: DayCount,
    pub frequency: Frequency,
    pub start_date: Date,
    pub end_date: Date,
    pub direction: PayReceive,
}

/// The floating leg of an interest rate swap.
#[derive(Clone, Debug)]
pub struct FloatingLeg {
    pub notional: Decimal,
    pub rate_index_id: String,
    /// Spread over the index (0.001 for 10bp).
    pub spread: Decimal,
    pub day_count: DayCount,
    pub frequency: Frequency,
    pub start_date: Date,
    pub end_date: Date,
    pub direction: PayReceive,
}

/// A fixed-for-floating interest rate swap.
#[derive(Clone, Debug)]
pub struct Swap {
    pub id: String,
    pub credit_id: String,
    pub currency: Arc<Currency>,
    pub settlement: Settlement,
    pub fixed_leg: FixedLeg,
    pub floating_leg: FloatingLeg,
}

impl Swap {
    /// A swap with the given legs.
    pub fn new(
        id: &str,
        credit_id: &str,
        currency: Arc<Currency>,
        settlement: Settlement,
        fixed_leg: FixedLeg,
        floating_leg: FloatingLeg,
    ) -> (r: Swap)
        ensures
            r.id@ == id@,
            r.credit_id@ == credit_id@,
            r.currency == currency,
            r.settlement == settlement,
            r.fixed_leg == fixed_leg,
            r.floating_leg == floating_leg,
    {
        Swap {
            id: String::from_str(id),
            credit_id: String::from_str(credit_id),
            currency,
            settlement,
            fixed_leg,
            floating_leg,
        }
    }

    /// The earlier of the two legs' start dates.
    pub fn effective_date(&self) -> (r: Date)
        ensures
            r == (if self.fixed_leg.start_date@ < self.floating_leg.start_date@ {
                self.fixed_leg.start_date
            } else {
                self.floating_leg.start_date
            }),
    {
        if self.fixed_leg.start_date.is_before(&self.floating_leg.start_date) {
            self.fixed_leg.start_date
        } else {
            self.floating_leg.start_date
        }
    }

    /// The later of the two legs' end dates.
    pub fn termination_date(&self) -> (r: Date)
        ensures
            r == (if self.floating_leg.end_date@ < self.fixed_leg.end_date@ {
                self.fixed_leg.end_date
            } else {
                self.floating_leg.end_date
            }),
    {
        if self.floating_leg.end_date.is_before(&self.fixed_leg.end_date) {
            self.fixed_leg.end_date
        } else {
            self.floating_leg.end_date
        }
    }
}

/// A fixed-coupon bond.
#[derive(Clone, Debug)]
pub struct Bond {
    pub id: String,
    pub credit_id: String,
    pub currency: Arc<Currency>,
    pub settlement: Settlement,
    pub issue_date: Date,
    pub maturity_date: Date,
    pub face_value: Decimal,
    /// Annual coupon rate (0.05 for 5%).
    pub coupon_rate: Decimal,
    pub day_count: DayCount,
    pub frequency: Frequency,
}

/// Parts of one coupon of a bond: face times rate, over the payments per
/// year.
pub open spec fn spec_coupon_amount(face: DecimalParts, rate: DecimalParts, per_year: int) -> Option<
    DecimalParts,
> {
    match checked_product(face, rate) {
        Some(p) => checked_quotient(p, (false, per_year, 0int)),
        None => None,
    }
}

impl Bond {
    /// A bond with the given terms.
    pub fn new(
        id: &str,
        credit_id: &str,
        currency: Arc<Currency>,
        settlement: Settlement,
        issue_date: Date,
        maturity_date: Date,
        face_value: Decimal,
        coupon_rate: Decimal,
        day_count: DayCount,
        frequency: Frequency,
    ) -> (r: Bond)
        ensures
            r.id@ == id@,
            r.credit_id@ == credit_id@,
            r.currency == currency,
            r.settlement == settlement,
            r.issue_date == issue_date,
            r.maturity_date == maturity_date,
            r.face_value == face_value,
            r.coupon_rate == coupon_rate,
            r.day_count == day_count,
            r.frequency == frequency,
    {
        Bond {
            id: String::from_str(id),
            credit_id: String::from_str(credit_id),
            currency,
            settlement,
            issue_date,
            maturity_date,
            face_value,
            coupon_rate,
            day_count,
            frequency,
        }
    }

    /// One coupon payment: face value times coupon rate over the number of
    /// payments per year; `None` when the arithmetic overflows a decimal.
    pub fn coupon_amount(&self) -> (r: Option<Decimal>)
        ensures
            r is Some <==> spec_coupon_amount(
                self.face_value@,
                self.coupon_rate@,
                spec_per_year(self.frequency),
            ) is Some,
            r matches Some(x) ==> spec_coupon_amount(
                self.face_value@,
                self.coupon_rate@,
                spec_per_year(self.frequency),
            ) == Some(x@),
    {
        match self.face_value.checked_mul(self.coupon_rate) {
            Some(p) => {
                let n = Decimal::from_u32(self.frequency.per_year());
                p.checked_div(n)
            },
            None => None,
        }
    }
}

/// An FX forward: `base_amount` of the base currency against
/// `quote_amount` of the quote currency, delivered on `delivery_date`.
/// The amounts are held as the IEEE-754 bit patterns of their `f64`
/// values; the library only carries them.
#[derive(Clone, Debug)]
pub struct FxForward {
    pub id: String,
    pub credit_id: String,
    pub base_currency: Arc<Currency>,
    pub quote_currency: Arc<Currency>,
    pub settlement: Settlement,
    pub base_amount: u64,
    pub quote_amount: u64,
    pub delivery_date: Date,
}

impl FxForward {
    /// An FX forward with the given terms (amounts as `f64` bit patterns).
    pub fn new(
        id: &str,
        credit_id: &str,
        base_currency: Arc<Currency>,
        quote_currency: Arc<Currency>,
        settlement: Settlement,
        base_amount: u64,
        quote_amount: u64,
        delivery_date: Date,
    ) -> (r: FxForward)
        ensures
            r.id@ == id@,
            r.credit_id@ == credit_id@,
            r.base_currency == base_currency,
            r.quote_currency == quote_currency,
            r.settlement == settlement,
            r.base_amount == base_amount,
            r.quote_amount == quote_amount,
            r.delivery_date == delivery_date,
    {
        FxForward {
            id: String::from_str(id),
            credit_id: String::from_str(credit_id),
            base_currency,
            quote_currency,
            settlement,
            base_amount,
            quote_amount,
            delivery_date,
        }
    }
}

/// A basket: instruments held in the given weights.
#[derive(Debug)]
pub struct Basket {
    pub id: String,
    pub credit_id: String,
    pub currency: Arc<Currency>,
    pub settlement: Settlement,
    pub components: Vec<(Decimal, Instrument)>,
}

impl Basket {
    /// A basket with the given terms and weighted components.
    pub fn new(
        id: &str,
        credit_id: &str,
        currency: Arc<Currency>,
        settlement: Settlement,
        components: Vec<(Decimal, Instrument)>,
    ) -> (r: Basket)
        ensures
            r.id@ == id@,
            r.credit_id@ == credit_id@,
            r.currency == currency,
            r.settlement == settlement,
            r.components@ == components@,
    {
        Basket { id: String::from_str(id), credit_id: String::from_str(credit_id), currency, settlement, components }
    }

    /// The number of components.
    pub fn len(&self) -> (r: usize)
        ensures
            r == self.components@.len(),
    {
        self.components.len()
    }

    /// Whether the basket has no components.
    pub fn is_empty(&self) -> (r: bool)
        ensures
            r == (self.components@.len() == 0),
    {
        self.components.len() == 0
    }
}

/// The later of two optional maturities (a missing one is ignored).
pub open spec fn later_maturity(a: Option<int>, b: Option<int>) -> Option<int> {
    match (a, b) {
        (Some(x), Some(y)) => Some(if x < y { y } else { x }),
        (Some(x), None) => Some(x),
        (None, _) => b,
    }
}

/// The latest maturity among basket components; `None` when none of them
/// matures.
pub open spec fn components_maturity(comps: Seq<(Decimal, Instrument)>) -> Option<int>
    decreases comps,
{
    if comps.len() == 0 {
        None
    } else {
        later_maturity(
            components_maturity(comps.subrange(0, comps.len() - 1)),
            spec_maturity(comps[comps.len() - 1].1),
        )
    }
}

/// Any instrument of the book.
#[derive(Debug)]
pub enum Instrument {
    Future(Future),
    EuropeanOption(EuropeanOption),
    Equity(Equity),
    Payment(Payment),
    Swap(Swap),
    Bond(Bond),
    FxForward(FxForward),
    Basket(Basket),
}

/// Id of an instrument.
pub open spec fn spec_id(inst: Instrument) -> Seq<char> {
    match inst {
        Instrument::Future(f) => f.id@,
        Instrument::EuropeanOption(o) => o.id@,
        Instrument::Equity(e) => e.id@,
        Instrument::Payment(p) => p.id@,
        Instrument::Swap(s) => s.id@,
        Instrument::Bond(b) => b.id@,
        Instrument::FxForward(x) => x.id@,
        Instrument::Basket(b) => b.id@,
    }
}

/// Maturity of an instrument, as a day number; `None` for equities (and
/// for baskets none of whose components matures).
pub open spec fn spec_maturity(inst: Instrument) -> Option<int>
    decreases inst,
{
    match inst {
        Instrument::Future(f) => Some(f.expiry@),
        Instrument::EuropeanOption(o) => Some(o.expiry@),
        Instrument::Equity(_) => None,
        Instrument::Payment(p) => Some(p.pay_date@),
        Instrument::Swap(s) => Some(
            if s.floating_leg.end_date@ < s.fixed_leg.end_date@ {
                s.fixed_leg.end_date@
            } else {
                s.floating_leg.end_date@
            },
        ),
        Instrument::Bond(b) => Some(b.maturity_date@),
        Instrument::FxForward(x) => Some(x.delivery_date@),
        Instrument::Basket(b) => components_maturity(b.components@),
    }
}

/// Clearing status of an instrument; `None` for types that do not clear.
pub open spec fn spec_clearing(inst: Instrument) -> Option<ClearingStatus> {
    match inst {
        Instrument::Future(f) => Some(f.clearing),
        Instrument::EuropeanOption(o) => Some(o.clearing),
        _ => None,
    }
}

impl Instrument {
    /// Unique instrument identifier.
    pub fn id(&self) -> (r: &String)
        ensures
            r@ == spec_id(*self),
    {
        match self {
            Instrument::Future(f) => &f.id,
            Instrument::EuropeanOption(o) => &o.id,
            Instrument::Equity(e) => &e.id,
            Instrument::Payment(p) => &p.id,
            Instrument::Swap(s) => &s.id,
            Instrument::Bond(b) => &b.id,
            Instrument::FxForward(x) => &x.id,
            Instrument::Basket(b) => &b.id,
        }
    }

    /// The currency the instrument is denominated in.
    pub fn currency(&self) -> (r: &Currency)
        ensures
            r == (match *self {
                Instrument::Future(f) => *f.currency,
                Instrument::EuropeanOption(o) => *o.currency,
                Instrument::Equity(e) => *e.currency,
                Instrument::Payment(p) => *p.currency,
                Instrument::Swap(s) => *s.currency,
                Instrument::Bond(b) => *b.currency,
                Instrument::FxForward(x) => *x.quote_currency,
                Instrument::Basket(b) => *b.currency,
            }),
    {
        match self {
            Instrument::Future(f) => &f.currency,
            Instrument::EuropeanOption(o) => &o.currency,
            Instrument::Equity(e) => &e.currency,
            Instrument::Payment(p) => &p.currency,
            Instrument::Swap(s) => &s.currency,
            Instrument::Bond(b) => &b.currency,
            Instrument::FxForward(x) => &x.quote_currency,
            Instrument::Basket(b) => &b.currency,
        }
    }

    /// The settlement terms of the instrument.
    pub fn settlement(&self) -> (r: &Settlement)
        ensures
            r == (match *self {
                Instrument::Future(f) => f.settlement,
                Instrument::EuropeanOption(o) => o.settlement,
                Instrument::Equity(e) => e.settlement,
                Instrument::Payment(p) => p.settlement,
                Instrument::Swap(s) => s.settlement,
                Instrument::Bond(b) => b.settlement,
                Instrument::FxForward(x) => x.settlement,
                Instrument::Basket(b) => b.settlement,
            }),
    {
        match self {
            Instrument::Future(f) => &f.settlement,
            Instrument::EuropeanOption(o) => &o.settlement,
            Instrument::Equity(e) => &e.settlement,
            Instrument::Payment(p) => &p.settlement,
            Instrument::Swap(s) => &s.settlement,
            Instrument::Bond(b) => &b.settlement,
            Instrument::FxForward(x) => &x.settlement,
            Instrument::Basket(b) => &b.settlement,
        }
    }

    /// Maturity date; `None` for instruments that do not mature.
    pub fn maturity(&self) -> (r: Option<Date>)
        ensures
            r matches Some(d) ==> spec_maturity(*self) == Some(d@),
            r is None ==> spec_maturity(*self) is None,
        decreases self,
    {
        match self {
            Instrument::Future(f) => Some(f.expiry),
            Instrument::EuropeanOption(o) => Some(o.expiry),
            Instrument::Equity(_) => None,
            Instrument::Payment(p) => Some(p.pay_date),
            Instrument::Swap(s) => Some(s.termination_date()),
            Instrument::Bond(b) => Some(b.maturity_date),
            Instrument::FxForward(x) => Some(x.delivery_date),
            Instrument::Basket(b) => {
                let comps = &b.components;
                let mut latest: Option<Date> = None;
                let mut i: usize = 0;
                while i < comps.len()
                    invariant
                        i <= comps@.len(),
                        *self == Instrument::Basket(*b),
                        comps == &b.components,
                        match latest {
                            Some(d) => components_maturity(comps@.subrange(0, i as int)) == Some(d@),
                            None => components_maturity(comps@.subrange(0, i as int)) is None,
                        },
                    decreases comps.len() - i,
                {
                    proof {
                        assert(comps@.subrange(0, i + 1).subrange(0, i as int) =~= comps@.subrange(0, i as int));
                        assert(comps@.subrange(0, i + 1)[i as int] == comps@[i as int]);
                        assert((*self)->Basket_0 == *b);
                        assert(decreases_to!(*self => (*self)->Basket_0));
                        assert(decreases_to!(*b => b.components));
                        assert(decreases_to!(b.components => b.components@));
                        assert(decreases_to!(b.components@ => b.components@[i as int]));
                        assert(decreases_to!(b.components@[i as int] => b.components@[i as int].1));
                        assert(decreases_to!(*self => comps@[i as int].1));
                    }
                    let m = comps[i].1.maturity();
                    latest = match (latest, m) {
                        (Some(a), Some(c)) => if a.is_before(&c) {
                            Some(c)
                        } else {
                            Some(a)
                        },
                        (Some(a), None) => Some(a),
                        (None, m) => m,
                    };
                    i = i + 1;
                }
                proof {
                    assert(comps@.subrange(0, comps@.len() as int) =~= comps@);
                }
                latest
            },
        }
    }

    /// Clearing status; `None` for instrument types with no clearing
    /// dimension.
    pub fn clearing(&self) -> (r: Option<ClearingStatus>)
        ensures
            r == spec_clearing(*self),
    {
        match self {
            Instrument::Future(f) => Some(f.clearing),
            Instrument::EuropeanOption(o) => Some(o.clearing),
            _ => None,
        }
    }

    /// The type name (`"Future"`, `"EuropeanOption"`, ...).
    pub fn instrument_type(&self) -> (r: &'static str)
        ensures
            r@ == (match *self {
                Instrument::Future(_) => "Future"@,
                Instrument::EuropeanOption(_) => "EuropeanOption"@,
                Instrument::Equity(_) => "Equity"@,
                Instrument::Payment(_) => "Payment"@,
                Instrument::Swap(_) => "Swap"@,
                Instrument::Bond(_) => "Bond"@,
                Instrument::FxForward(_) => "FxForward"@,
                Instrument::Basket(_) => "Basket"@,
            }),
    {
        match self {
            Instrument::Future(_) => {
                proof {
                    reveal_strlit("Future");
                }
                "Future"
            },
            Instrument::EuropeanOption(_) => {
                proof {
                    reveal_strlit("EuropeanOption");
                }
                "EuropeanOption"
            },
            Instrument::Equity(_) => {
                proof {
                    reveal_strlit("Equity");
                }
                "Equity"
            },
            Instrument::Payment(_) => {
                proof {
                    reveal_strlit("Payment");
                }
                "Payment"
            },
            Instrument::Swap(_) => {
                proof {
                    reveal_strlit("Swap");
                }
                "Swap"
            },
            Instrument::Bond(_) => {
                proof {
                    reveal_strlit("Bond");
                }
                "Bond"
            },
            Instrument::FxForward(_) => {
                proof {
                    reveal_strlit("FxForward");
                }
                "FxForward"
            },
            Instrument::Basket(_) => {
                proof {
                    reveal_strlit("Basket");
                }
                "Basket"
            },
        }
    }
}

} // verus!
