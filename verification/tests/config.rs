use std::sync::Arc;

use qloxide::config::{
    check_book, check_market, check_series_completeness, MarketFacts, SeriesDay, SeriesView, Waiver,
};
use qloxide::dates::daycount::DayCount;
use qloxide::dates::instant::Timestamp;
use qloxide::dates::rules::DateRule;
use qloxide::dates::Date;
use qloxide::decimal::Decimal;
use qloxide::error::Error;
use qloxide::instruments::{
    ClearingStatus, EuropeanOption, Future, Instrument, OptionSettlement, PutOrCall, Settlement,
};
use qloxide::reference_data::{Currency, SettlementIndex};
use qloxide::reports::{pnl, try_pnl};
use qloxide::trades::{BuySell, Deal};

const FIXTURE_DAYS: &[&str] = &[
    "2026-03-02",
    "2026-03-03",
    "2026-03-04",
    "2026-03-05",
    "2026-03-06",
    "2026-03-07",
];

fn d(s: &str) -> Date {
    Date::parse(s).unwrap()
}

fn usd(dc: DayCount) -> Arc<Currency> {
    Arc::new(Currency::new("USD", DateRule::Null, dc))
}

fn ice() -> Settlement {
    Settlement::new("ICE", "SETTLE", "19:30", "Europe/London", DateRule::Null)
}

fn future_with(id: &str, dc: DayCount, expiry: &str) -> Instrument {
    Instrument::Future(Future::new(
        id,
        "ICE-BRENT-INDEX",
        usd(dc),
        ice(),
        ClearingStatus::Cleared,
        d(expiry),
        Decimal::from(1000),
        Decimal::parse("0.01").unwrap(),
    ))
}

fn future() -> Instrument {
    future_with("ICE-B-K26", DayCount::Act360, "2026-03-31")
}

fn option(id: &str, underlying: &str, clearing: ClearingStatus) -> Instrument {
    Instrument::EuropeanOption(EuropeanOption::new(
        id,
        underlying,
        "ICE",
        usd(DayCount::Act360),
        ice(),
        clearing,
        d("2026-03-27"),
        Decimal::from(75),
        PutOrCall::Call,
        OptionSettlement::Cash,
    ))
}

fn deal(id: &str, instrument: &str, ts: &str) -> Deal {
    Deal {
        id: id.to_string(),
        instrument_id: instrument.to_string(),
        direction: BuySell::Buy,
        quantity: Decimal::from(5),
        price: Decimal::parse("71.80").unwrap(),
        timestamp: Timestamp::parse(ts).unwrap(),
        counterparty: "ICE_CLEAR".to_string(),
    }
}

fn book_deals() -> Vec<Deal> {
    vec![deal("DEAL-001", "ICE-B-K26", "2026-03-02T10:14:32Z")]
}

/// A history over `days` whose 2026-03-04 record optionally lacks the
/// instrument's settle.
fn series(days: &[&str], covered: bool) -> SeriesView {
    SeriesView {
        days: days
            .iter()
            .map(|day| SeriesDay {
                date: d(day),
                settled: if *day == "2026-03-04" && !covered {
                    vec![]
                } else {
                    vec!["ICE-B-K26".to_string()]
                },
            })
            .collect(),
        skipped_days: vec![],
    }
}

fn completeness(view: &SeriesView, waivers: &[Waiver]) -> (Vec<String>, Vec<String>) {
    let mut warnings = Vec::new();
    let mut errors = Vec::new();
    check_series_completeness(
        view,
        &[future()],
        &book_deals(),
        d("2026-03-07"),
        waivers,
        &mut warnings,
        &mut errors,
    );
    (warnings, errors)
}

/// The fixture's index registry: the Brent index the futures are written
/// on, a published price (no determination window).
fn registry() -> Vec<SettlementIndex> {
    vec![SettlementIndex { id: "ICE-BRENT-INDEX".to_string(), average_window_end: None }]
}

fn config_message(e: Error) -> String {
    match e {
        Error::Config(m) => m,
        other => panic!("expected a config error, got {other:?}"),
    }
}

#[test]
fn series_completeness_clean() {
    let (warnings, errors) = completeness(&series(FIXTURE_DAYS, true), &[]);
    assert!(errors.is_empty(), "{errors:?}");
    assert!(warnings.is_empty(), "{warnings:?}");
}

#[test]
fn series_missing_settle_is_integrity_error() {
    let (warnings, errors) = completeness(&series(FIXTURE_DAYS, false), &[]);
    // Without waivers every finding is an integrity error.
    assert!(warnings.is_empty(), "{warnings:?}");
    assert_eq!(errors.len(), 1);
    assert!(errors[0].contains("no settlement in series on 2026-03-04"), "{errors:?}");

    // Valuation refuses.
    let err = config_message(pnl(&[], 1, Some(d("2026-03-07")), None, &errors).unwrap_err());
    assert!(err.contains("refused"), "{err}");
}

#[test]
fn series_waiver_downgrades_to_warning() {
    let waivers = vec![Waiver {
        from: d("2026-03-04"),
        through: d("2026-03-04"),
        reason: "test gap".to_string(),
    }];
    let (warnings, errors) = completeness(&series(FIXTURE_DAYS, false), &waivers);
    assert!(errors.is_empty(), "{errors:?}");
    assert!(warnings.iter().any(|w| w.contains("waived (test gap)")), "{warnings:?}");
    assert!(pnl(&[], 1, Some(d("2026-03-07")), None, &errors).is_ok());
}

#[test]
fn series_uncovered_days_collapse_to_one_run() {
    // History starts 03-04: 03-02..03-03 are unaccounted for.
    let view = series(&["2026-03-04", "2026-03-05", "2026-03-06", "2026-03-07"], true);
    let (_, errors) = completeness(&view, &[]);
    assert_eq!(errors.len(), 1, "{errors:?}");
    assert!(errors[0].contains("does not cover 2026-03-02..2026-03-03"), "{errors:?}");
}

#[test]
fn series_skipped_days_need_nothing() {
    let mut view = series(&["2026-03-02", "2026-03-03", "2026-03-05", "2026-03-06", "2026-03-07"], true);
    view.skipped_days = vec![d("2026-03-04")];
    let (warnings, errors) = completeness(&view, &[]);
    assert!(errors.is_empty() && warnings.is_empty(), "{errors:?} {warnings:?}");
}

#[test]
fn series_findings_name_the_instrument_and_the_days() {
    let view = series(&["2026-03-02", "2026-03-03", "2026-03-07"], true);
    let (_, errors) = completeness(&view, &[]);
    assert_eq!(
        errors,
        vec!["cleared instrument 'ICE-B-K26': series does not cover 2026-03-04..2026-03-06".to_string()]
    );
}

#[test]
fn duplicate_instrument_id_errors() {
    let err = config_message(check_book(&[future(), future()], &registry(), &book_deals(), &vec![]).unwrap_err());
    assert!(err.contains("duplicate instrument"), "{err}");
}

#[test]
fn unknown_instrument_in_deal_errors() {
    let deals = vec![deal("D1", "NONEXISTENT", "2026-03-02T10:00:00Z")];
    let err = config_message(check_book(&[future()], &registry(), &deals, &vec![]).unwrap_err());
    assert!(err.contains("unknown instrument"), "{err}");
}

#[test]
fn duplicate_deal_id_errors() {
    let deals = vec![
        deal("D1", "ICE-B-K26", "2026-03-02T10:00:00Z"),
        deal("D1", "ICE-B-K26", "2026-03-03T10:00:00Z"),
    ];
    let err = config_message(check_book(&[future()], &registry(), &deals, &vec![]).unwrap_err());
    assert!(err.contains("duplicate deal"), "{err}");
}

#[test]
fn inconsistent_currency_definitions_warn() {
    let instruments = vec![
        future(),
        future_with("ICE-B-M26", DayCount::Act365Fixed, "2026-05-29"),
    ];
    let warnings = check_book(&instruments, &registry(), &book_deals(), &vec![]).unwrap();
    assert!(
        warnings.iter().any(|w| w.contains("defined inconsistently")),
        "expected currency inconsistency warning, got: {warnings:?}"
    );
}

fn empty_facts() -> MarketFacts {
    MarketFacts {
        valuation_date: d("2026-03-07"),
        settled: vec![],
        priced: vec![],
        curves: vec![],
        surfaces: vec![],
        no_arb_findings: vec![],
    }
}

fn full_facts() -> MarketFacts {
    MarketFacts {
        valuation_date: d("2026-03-07"),
        settled: vec!["ICE-B-K26".to_string()],
        priced: vec!["ICE-B-K26".to_string()],
        curves: vec!["USD".to_string()],
        surfaces: vec![],
        no_arb_findings: vec![],
    }
}

fn market(instruments: &[Instrument], facts: &MarketFacts, risk: bool) -> (Vec<String>, Vec<String>) {
    let mut warnings = Vec::new();
    let mut errors = Vec::new();
    check_market(instruments, &book_deals(), &vec![], &[], facts, risk, &mut warnings, &mut errors);
    (warnings, errors)
}

#[test]
fn missing_market_data_warns() {
    // no market price + no curve stay warnings; the missing settle on a
    // cleared *dealt* instrument escalates to an integrity error — once at
    // the eval day, once as the whole-span completeness run.
    let (warnings, mut errors) = market(&[future()], &empty_facts(), false);
    let view = SeriesView {
        days: FIXTURE_DAYS.iter().map(|day| SeriesDay { date: d(day), settled: vec![] }).collect(),
        skipped_days: vec![],
    };
    let (_, series_errors) = completeness(&view, &[]);
    errors.extend(series_errors);
    assert_eq!(warnings.len(), 2, "{warnings:?}");
    assert_eq!(errors.len(), 2, "{errors:?}");
    assert!(errors.iter().any(|w| w.contains("cleared but no settlement price")));
    assert!(warnings.iter().any(|w| w.contains("no market price")));
    assert!(warnings.iter().any(|w| w.contains("no discount curve")));
}

#[test]
fn option_warnings_check_underlying_and_vol_surface() {
    let instruments = vec![
        future(),
        option("OPT-NO-VOL", "ICE-B-K26", ClearingStatus::Cleared),
        option("OPT-NO-UNDERLYING", "MISSING", ClearingStatus::Cleared),
        option("OPT-ON-OPT", "OPT-NO-VOL", ClearingStatus::Cleared),
    ];
    let book = check_book(&instruments, &registry(), &book_deals(), &vec![]).unwrap();
    let (mut warnings, _) = market(&instruments, &full_facts(), false);
    warnings.extend(book.iter().cloned());
    // Book tier: a cleared option's missing surface is not a warning.
    assert!(
        !warnings.iter().any(|w| w.contains("OPT-NO-VOL") && w.contains("no vol surface")),
        "book tier must not warn on a cleared option's missing surface: {warnings:?}"
    );
    let (mut risk_warnings, _) = market(&instruments, &full_facts(), true);
    risk_warnings.extend(book.iter().cloned());
    assert!(
        risk_warnings.iter().any(|w| w.contains("OPT-NO-VOL") && w.contains("no vol surface")),
        "expected vol surface warning on the risk tier, got: {risk_warnings:?}"
    );
    assert!(
        warnings.iter().any(|w| w.contains("OPT-NO-UNDERLYING") && w.contains("unknown underlying")),
        "expected unknown underlying warning, got: {warnings:?}"
    );
    assert!(
        warnings.iter().any(|w| w.contains("OPT-ON-OPT") && w.contains("contract_size defaults to 1")),
        "expected non-future underlying warning, got: {warnings:?}"
    );
    assert!(
        !warnings.iter().any(|w| w.contains("OPT-") && w.contains("no market price")),
        "options should not warn about market prices: {warnings:?}"
    );
}

#[test]
fn proxy_marks_validation_errors() {
    let instruments = vec![future(), option("OPT-BRN-75", "ICE-B-K26", ClearingStatus::Uncleared)];
    let check = |pair: (&str, &str), needle: &str| {
        let proxies = vec![(pair.0.to_string(), pair.1.to_string())];
        let err = config_message(check_book(&instruments, &registry(), &book_deals(), &proxies).unwrap_err());
        assert!(err.contains(needle), "{err}");
    };
    check(("NOPE", "ICE-B-K26"), "unknown instrument 'NOPE'");
    check(("ICE-B-K26", "ICE-B-K26"), "not uncleared");
    check(("OPT-BRN-75", "NOPE"), "proxies unknown instrument 'NOPE'");
    check(("OPT-BRN-75", "OPT-BRN-75"), "is not cleared");
}

#[test]
fn try_pnl_follows_pnl_when_the_totals_fit() {
    let date = Some(d("2026-03-07"));
    assert_eq!(try_pnl(&[], 0, date, None, &[]).unwrap().unwrap(), pnl(&[], 0, date, None, &[]).unwrap());
    let err = config_message(try_pnl(&[], 0, None, None, &[]).unwrap().unwrap_err());
    assert_eq!(err, "report 'pnl' requires market_data in the config");
    let refused = vec!["gap".to_string()];
    let err = config_message(try_pnl(&[], 0, date, None, &refused).unwrap().unwrap_err());
    assert!(err.contains("refused"), "{err}");
}

#[test]
fn dangling_future_underlying_errors() {
    // Empty registry: a future's underlying must resolve.
    let err = config_message(check_book(&[future()], &[], &book_deals(), &vec![]).unwrap_err());
    assert!(err.contains("unknown settlement index 'ICE-BRENT-INDEX'"), "{err}");
    assert_eq!(err, "future 'ICE-B-K26' references unknown settlement index 'ICE-BRENT-INDEX'");
}

#[test]
fn average_window_must_end_on_expiry() {
    // The fixture future expires 2026-03-31; its index's window ends a day
    // earlier: the wrong month binding.
    let indices = vec![
        SettlementIndex { id: "ICE-BRENT-1L".to_string(), average_window_end: None },
        SettlementIndex { id: "ICE-BRENT-INDEX".to_string(), average_window_end: Some(d("2026-03-30")) },
    ];
    let err = config_message(check_book(&[future()], &indices, &book_deals(), &vec![]).unwrap_err());
    assert!(err.contains("wrong period entry"), "{err}");
    assert_eq!(
        err,
        "future 'ICE-B-K26': determination window of 'ICE-BRENT-INDEX' ends 2026-03-30 but expiry is \
         2026-03-31 \u{2014} contract points at the wrong period entry"
    );
    let on_expiry = vec![SettlementIndex {
        id: "ICE-BRENT-INDEX".to_string(),
        average_window_end: Some(d("2026-03-31")),
    }];
    assert!(check_book(&[future()], &on_expiry, &book_deals(), &vec![]).is_ok());
}

#[test]
fn index_failures_name_the_least_future_id() {
    let instruments = vec![
        future_with("ICE-B-M26", DayCount::Act360, "2026-05-29"),
        future(),
    ];
    let err = config_message(check_book(&instruments, &[], &book_deals(), &vec![]).unwrap_err());
    assert_eq!(err, "future 'ICE-B-K26' references unknown settlement index 'ICE-BRENT-INDEX'");
    // A duplicate instrument id is reported before any index failure.
    let err = config_message(check_book(&[future(), future()], &[], &book_deals(), &vec![]).unwrap_err());
    assert!(err.contains("duplicate instrument"), "{err}");
}
