use std::sync::Arc;

use qloxide::dates::daycount::{Compounding, DayCount};
use qloxide::dates::rules::DateRule;
use qloxide::dates::Date;
use qloxide::dates::instant::{Time, Timestamp, ZonedDateTime};
use qloxide::decimal::Decimal;
use qloxide::instruments::{
    Basket, ClearingStatus, Equity, FxForward, EuropeanOption, Instrument, OptionSettlement, Payment, PutOrCall, Settlement,
};
use qloxide::reference_data::{CreditEntity, Currency, RateIndex};

fn usd() -> Arc<Currency> {
    Arc::new(Currency::new("USD", DateRule::Null, DayCount::Act360))
}

fn test_payment() -> Payment {
    Payment::new(
        "PAY-1",
        "ACME",
        Decimal::from(1_000_000),
        usd(),
        Settlement::otc(),
        Date::new(2026, 12, 15),
    )
}

#[test]
fn pay_date_t_plus_2_midweek() {
    // Wednesday 2026-03-11 + T+2 = Friday 2026-03-13
    let s = Settlement::otc();
    assert_eq!(s.pay_date(Date::new(2026, 3, 11)), Date::new(2026, 3, 13));
}

#[test]
fn pay_date_t_plus_2_over_weekend() {
    // Thursday 2026-03-12 + T+2 = Monday 2026-03-16 (skips Sat/Sun)
    let s = Settlement::otc();
    assert_eq!(s.pay_date(Date::new(2026, 3, 12)), Date::new(2026, 3, 16));
}

#[test]
fn pay_date_null_rule() {
    let s = Settlement::new("ICE", "SETTLE", "19:30", "Europe/London", DateRule::Null);
    let d = Date::new(2026, 3, 11);
    assert_eq!(s.pay_date(d), d);
    assert_eq!(s.time.to_string(), "19:30");
}

#[test]
fn trait_accessors() {
    let p = Instrument::Payment(test_payment());
    assert_eq!(p.id(), "PAY-1");
    assert_eq!(p.currency().id, "USD");
    assert_eq!(p.maturity(), Some(Date::new(2026, 12, 15)));
    assert_eq!(p.clearing(), None);
    assert_eq!(p.instrument_type(), "Payment");
}

#[test]
fn cash_flow_view_matches_fields() {
    let p = test_payment();
    let cf = p.cash_flow();
    assert_eq!(cf.amount, p.amount);
    assert_eq!(cf.currency.id, "USD");
    assert_eq!(cf.pay_date, p.pay_date);
}

#[test]
fn currency_construction() {
    let usd = Currency::new("USD", DateRule::Null, DayCount::Act360);
    assert_eq!(usd.id, "USD");
}

#[test]
fn reference_data_constructors_keep_fields() {
    let ce = CreditEntity::new("JPM", "USD");
    assert_eq!((ce.id.as_str(), ce.currency_id.as_str()), ("JPM", "USD"));
    let idx = RateIndex::new("USD-SOFR-3M", "USD", 3, DayCount::Act360, Compounding::Continuous, "BLOOMBERG");
    assert_eq!(idx.id, "USD-SOFR-3M");
    assert_eq!(idx.tenor_months, 3);
    assert_eq!(idx.fixing_source, "BLOOMBERG");
}

#[test]
fn option_intrinsic_is_floored_at_zero() {
    let opt = EuropeanOption::new(
        "OPT",
        "FUT",
        "ICE",
        usd(),
        Settlement::otc(),
        ClearingStatus::Cleared,
        Date::new(2026, 6, 25),
        Decimal::from(75),
        PutOrCall::Call,
        OptionSettlement::Cash,
    );
    assert_eq!(opt.intrinsic(Decimal::from(80)), Decimal::from(5));
    assert_eq!(opt.intrinsic(Decimal::from(70)), Decimal::zero());
    assert_eq!(opt.checked_intrinsic(Decimal::from(80)), Some(Decimal::from(5)));
    let inst = Instrument::EuropeanOption(opt);
    assert_eq!(inst.clearing(), Some(ClearingStatus::Cleared));
    assert_eq!(inst.instrument_type(), "EuropeanOption");
    assert_eq!(ClearingStatus::Uncleared.as_str(), "uncleared");
}

#[test]
fn settlement_at_date_ice_london() {
    let s = Settlement::new("ICE", "SETTLE", "19:30", "Europe/London", DateRule::Null);
    let z = s.at_date(Date::new(2026, 3, 31)).unwrap();
    // 2026-03-31 is BST (UTC+1), so 19:30 London = 18:30 UTC
    let expected = Timestamp::parse("2026-03-31T18:30:00Z").unwrap();
    assert_eq!(z.timestamp(), expected);
}

#[test]
fn settlement_at_date_otc_new_york() {
    let s = Settlement::otc(); // 17:00 America/New_York, T+2
    // 2026-03-07 is EST (UTC-5), so 17:00 NY = 22:00 UTC
    let z = s.at_date(Date::new(2026, 3, 7)).unwrap();
    let expected = Timestamp::parse("2026-03-07T22:00:00Z").unwrap();
    assert_eq!(z.timestamp(), expected);
}

#[test]
fn settlement_at_date_otc_new_york_dst() {
    let s = Settlement::otc(); // 17:00 America/New_York, T+2
    // 2026-07-01 is EDT (UTC-4), so 17:00 NY = 21:00 UTC
    let z = s.at_date(Date::new(2026, 7, 1)).unwrap();
    let expected = Timestamp::parse("2026-07-01T21:00:00Z").unwrap();
    assert_eq!(z.timestamp(), expected);
}

#[test]
fn settlement_at_date_invalid_timezone() {
    // Struct-literal construction bypasses any validation; at_date must
    // still fail cleanly.
    let s = Settlement {
        venue: "ICE".to_string(),
        session: "SETTLE".to_string(),
        time: Time::new(19, 30),
        timezone: "Fake/Zone".to_string(),
        payment_lag: DateRule::Null,
    };
    match s.at_date(Date::new(2026, 3, 7)) {
        Err(qloxide::error::Error::Instrument(m)) => assert!(m.starts_with("invalid timezone 'Fake/Zone'"), "{m}"),
        other => panic!("expected an instrument error, got {other:?}"),
    }
}

#[test]
fn zoned_parse() {
    let z = ZonedDateTime::parse("2025-06-14T19:30:00[Europe/London]").unwrap();
    assert_eq!(z.date(), Date::new(2025, 6, 14));
    assert_eq!(z.timestamp(), Timestamp::parse("2025-06-14T18:30:00Z").unwrap());
    assert!(ZonedDateTime::parse("not a date").is_err());
}

#[test]
fn zoned_from_parsed_keeps_text_zone_and_error() {
    let parsed = "2025-06-14T19:30:00[Europe/London]".parse::<jiff::Zoned>();
    let z = ZonedDateTime::from_parsed(parsed.map_err(|e| e.to_string())).unwrap();
    assert_eq!(z.to_string(), "2025-06-14T19:30:00+01:00[Europe/London]");
    assert_eq!(z.timezone().iana_name(), Some("Europe/London"));
    assert_eq!(z.date(), Date::new(2025, 6, 14));
    match ZonedDateTime::from_parsed(Err("no such zone".to_string())) {
        Err(qloxide::error::Error::Date(m)) => assert_eq!(m, "no such zone"),
        other => panic!("expected a date error, got {other:?}"),
    }
}

fn brent_k26() -> qloxide::instruments::Future {
    qloxide::instruments::Future::new(
        "ICE-BRN-K26",
        "Brent",
        usd(),
        Settlement::new("ICE", "SETTLE", "19:30", "Europe/London", DateRule::Null),
        ClearingStatus::Cleared,
        Date::new(2026, 3, 31),
        Decimal::from(1000u32),
        Decimal::parse("0.01").unwrap(),
    )
}

#[test]
fn expired_future_uses_settlement_price() {
    let d = Date::new(2026, 4, 15);
    assert!(brent_k26().expired_as_of(d.as_of_midnight(), d));
}

#[test]
fn on_expiry_date_prices_ok() {
    let d = Date::new(2026, 3, 31);
    assert!(!brent_k26().expired_as_of(d.as_of_midnight(), d));
}

#[test]
fn before_settlement_on_expiry_day_not_expired() {
    // 14:00 UTC on expiry day, settlement is 19:30 London (BST = 18:30 UTC)
    let as_of = Timestamp::parse("2026-03-31T14:00:00Z").unwrap();
    assert!(!brent_k26().expired_as_of(as_of, Date::new(2026, 3, 31)));
}

#[test]
fn after_settlement_on_expiry_day_expired() {
    // 20:00 UTC on expiry day, settlement is 19:30 London (BST = 18:30 UTC)
    let as_of = Timestamp::parse("2026-03-31T20:00:00Z").unwrap();
    assert!(brent_k26().expired_as_of(as_of, Date::new(2026, 3, 31)));
}

#[test]
fn unknown_zone_falls_back_to_the_expiry_date() {
    let mut f = brent_k26();
    f.settlement.timezone = "Fake/Zone".to_string();
    let as_of = Timestamp::parse("2026-03-31T20:00:00Z").unwrap();
    assert!(!f.expired_as_of(as_of, Date::new(2026, 3, 31)));
    assert!(f.expired_as_of(as_of, Date::new(2026, 4, 1)));
}

#[test]
fn fx_forward_accessors() {
    let eur = Arc::new(Currency::new("EUR", DateRule::Null, DayCount::Act360));
    let fx = FxForward::new(
        "FX-1",
        "BANK",
        eur,
        usd(),
        Settlement::otc(),
        1_000_000.0f64.to_bits(),
        1_085_000.0f64.to_bits(),
        Date::new(2026, 9, 16),
    );
    assert_eq!(f64::from_bits(fx.quote_amount) / f64::from_bits(fx.base_amount), 1.085);
    let inst = Instrument::FxForward(fx);
    assert_eq!(inst.id(), "FX-1");
    assert_eq!(inst.currency().id, "USD");
    assert_eq!(inst.maturity(), Some(Date::new(2026, 9, 16)));
    assert_eq!(inst.clearing(), None);
    assert_eq!(inst.instrument_type(), "FxForward");
}

#[test]
fn basket_matures_with_its_latest_component() {
    let equity = Instrument::Equity(Equity::new("EQ-1", "ACME", usd(), Settlement::otc()));
    let payment = Instrument::Payment(test_payment());
    let future = Instrument::Future(brent_k26());
    let basket = Basket::new(
        "BSK-1",
        "ACME",
        usd(),
        Settlement::otc(),
        vec![(Decimal::from(2), future), (Decimal::one(), equity), (Decimal::one(), payment)],
    );
    assert_eq!(basket.len(), 3);
    assert!(!basket.is_empty());
    let inst = Instrument::Basket(basket);
    assert_eq!(inst.maturity(), Some(Date::new(2026, 12, 15)));
    assert_eq!(inst.instrument_type(), "Basket");
    let stock_only = Instrument::Basket(Basket::new(
        "BSK-2",
        "ACME",
        usd(),
        Settlement::otc(),
        vec![(Decimal::one(), Instrument::Equity(Equity::new("EQ-2", "ACME", usd(), Settlement::otc())))],
    ));
    assert_eq!(stock_only.maturity(), None);
    let empty = Basket::new("BSK-3", "ACME", usd(), Settlement::otc(), vec![]);
    assert!(empty.is_empty());
}
