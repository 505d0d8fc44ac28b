use std::sync::Arc;

use qloxide::dates::daycount::DayCount;
use qloxide::dates::instant::Timestamp;
use qloxide::dates::rules::DateRule;
use qloxide::dates::Date;
use qloxide::decimal::Decimal;
use qloxide::error::Error;
use qloxide::generator::{
    day_plan, generation_start, model_marked_underlyings, provenance_stamp, split_surfaces, walk_step, WalkAction,
};
use qloxide::instruments::{
    ClearingStatus, EuropeanOption, Future, Instrument, OptionSettlement, PutOrCall, Settlement,
};
use qloxide::reference_data::Currency;
use qloxide::trades::{BuySell, Deal};

fn d(s: &str) -> Date {
    Date::parse(s).unwrap()
}

fn ccy(id: &str) -> Arc<Currency> {
    Arc::new(Currency::new(id, DateRule::Null, DayCount::Act360))
}

fn ice() -> Settlement {
    Settlement::new("ICE", "SETTLE", "19:30", "Europe/London", DateRule::Null)
}

fn future(id: &str, expiry: &str, currency: &str) -> Instrument {
    Instrument::Future(Future::new(
        id,
        "ICE-BRENT-INDEX",
        ccy(currency),
        ice(),
        ClearingStatus::Cleared,
        d(expiry),
        Decimal::from(1000),
        Decimal::parse("0.01").unwrap(),
    ))
}

fn option(id: &str, underlying: &str, clearing: ClearingStatus, expiry: &str) -> Instrument {
    Instrument::EuropeanOption(EuropeanOption::new(
        id,
        underlying,
        "ICE",
        ccy("USD"),
        ice(),
        clearing,
        d(expiry),
        Decimal::from(75),
        PutOrCall::Call,
        OptionSettlement::Cash,
    ))
}

fn deal(instrument: &str, ts: &str) -> Deal {
    Deal {
        id: format!("D-{instrument}"),
        instrument_id: instrument.to_string(),
        direction: BuySell::Buy,
        quantity: Decimal::from(1),
        price: Decimal::from(1),
        timestamp: Timestamp::parse(ts).unwrap(),
        counterparty: "X".to_string(),
    }
}

fn message(e: Error) -> String {
    match e {
        Error::Config(m) => m,
        other => panic!("expected a config error, got {other:?}"),
    }
}

#[test]
fn span_errors() {
    let err = message(generation_start(None, d("2026-07-10"), None).unwrap_err());
    assert!(err.contains("no `from`"), "{err}");
    let err = message(generation_start(Some(d("2026-07-11")), d("2026-07-10"), None).unwrap_err());
    assert!(err.contains("span is empty"), "{err}");
    assert_eq!(err, "generate: span is empty \u{2014} from 2026-07-11 is after through 2026-07-10");
}

#[test]
fn span_starts_at_the_earliest_deal() {
    let deals = vec![deal("A", "2026-03-05T10:00:00Z"), deal("B", "2026-03-02T23:59:59Z")];
    assert_eq!(generation_start(None, d("2026-03-10"), Some(&deals)).unwrap(), d("2026-03-02"));
    assert_eq!(
        generation_start(Some(d("2026-03-04")), d("2026-03-10"), Some(&deals)).unwrap(),
        d("2026-03-04")
    );
}

#[test]
fn day_plan_splits_expired_from_live() {
    let instruments = vec![
        future("FUT-A", "2026-03-04", "USD"),
        future("FUT-B", "2026-12-31", "EUR"),
        option("OPT-B", "FUT-B", ClearingStatus::Cleared, "2026-06-30"),
        option("OPT-A", "FUT-A", ClearingStatus::Cleared, "2026-03-01"),
    ];
    let plan = day_plan(&instruments, d("2026-03-05"));
    assert_eq!(plan.finals, vec!["FUT-A".to_string(), "OPT-A".to_string()]);
    assert_eq!(plan.live, vec!["FUT-B".to_string(), "OPT-B".to_string()]);
    let currencies: Vec<String> = plan.currencies.iter().map(|(c, _)| c.clone()).collect();
    assert_eq!(currencies, vec!["EUR".to_string(), "USD".to_string()]);
    let underlyings: Vec<String> = plan.underlyings.iter().map(|(u, _)| u.clone()).collect();
    assert_eq!(underlyings, vec!["FUT-B".to_string()]);
}

#[test]
fn uncleared_rule_splits_surfaces() {
    let instruments = vec![
        future("FUT-A", "2026-12-31", "USD"),
        future("FUT-B", "2026-12-31", "USD"),
        option("OPT-A", "FUT-A", ClearingStatus::Uncleared, "2026-06-30"),
        option("OPT-B", "FUT-B", ClearingStatus::Cleared, "2026-06-30"),
    ];
    let deals = vec![deal("OPT-A", "2026-03-02T10:00:00Z"), deal("OPT-B", "2026-03-02T10:00:00Z")];
    let keep = model_marked_underlyings(&instruments, Some(&deals), d("2026-03-03"));
    let names: Vec<String> = keep.iter().map(|(u, _)| u.clone()).collect();
    assert_eq!(names, vec!["FUT-A".to_string()]);
    // Not yet dealt on the day: no surface needed.
    let keep = model_marked_underlyings(&instruments, Some(&deals), d("2026-03-01"));
    assert!(keep.is_empty());
}

#[test]
fn walk_records_or_skips_every_day_of_the_span_once() {
    // 2026-07-06 is a Monday; weekends are not trading days.
    let through = d("2026-07-13");
    let mut date = d("2026-07-06");
    let mut recorded = Vec::new();
    let mut skipped = Vec::new();
    loop {
        let trading = !matches!(date.weekday(), 6 | 7);
        let (action, next) = walk_step(date, through, trading);
        match action {
            WalkAction::Record => recorded.push(date.to_string()),
            WalkAction::Skip => skipped.push(date.to_string()),
        }
        match next {
            Some(n) => date = n,
            None => break,
        }
    }
    assert_eq!(
        recorded,
        vec!["2026-07-06", "2026-07-07", "2026-07-08", "2026-07-09", "2026-07-10", "2026-07-13"]
    );
    assert_eq!(skipped, vec!["2026-07-11", "2026-07-12"]);
    assert_eq!(walk_step(through, through, false), (WalkAction::Skip, None));
}

#[test]
fn split_keeps_only_needed_surfaces() {
    let ids = vec!["Brent".to_string(), "WTI".to_string(), "Gas".to_string()];
    let needed = vec![("Brent".to_string(), ()), ("Gas".to_string(), ())];
    assert_eq!(split_surfaces(&ids, &needed), vec![true, false, true]);
    assert_eq!(split_surfaces(&ids, &[]), vec![false, false, false]);
}

#[test]
fn empty_stamps_stay_absent() {
    assert_eq!(provenance_stamp(""), None);
    assert_eq!(provenance_stamp("ICE"), Some("ICE".to_string()));
}
