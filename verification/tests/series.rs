use std::sync::Arc;

use qloxide::dates::daycount::DayCount;
use qloxide::dates::instant::Timestamp;
use qloxide::dates::rules::DateRule;
use qloxide::dates::Date;
use qloxide::decimal::Decimal;
use qloxide::error::Error;
use qloxide::instruments::{ClearingStatus, Future, Instrument, Settlement};
use qloxide::portfolio::MarkSource;
use qloxide::reference_data::Currency;
use qloxide::series::{pnl_series, try_pnl_series, MarkedDay, MarketSeries};
use qloxide::trades::{BuySell, Deal};

fn dec(s: &str) -> Decimal {
    Decimal::parse(s).unwrap()
}

fn deal(id: &str, price: &str, ts: &str) -> Deal {
    Deal {
        id: id.to_string(),
        instrument_id: "FUT".to_string(),
        direction: BuySell::Buy,
        quantity: Decimal::from(1),
        price: dec(price),
        timestamp: Timestamp::parse(ts).unwrap(),
        counterparty: "TEST".to_string(),
    }
}

fn fut() -> Instrument {
    let usd = Arc::new(Currency::new("USD", DateRule::Null, DayCount::Act360));
    Instrument::Future(Future::new(
        "FUT",
        "Brent",
        usd,
        Settlement::new("ICE", "SETTLE", "19:30", "Europe/London", DateRule::Null),
        ClearingStatus::Cleared,
        Date::new(2026, 3, 4),
        Decimal::from(1),
        dec("0.01"),
    ))
}

fn day(date: &str, settle: &str, deals: usize) -> MarkedDay {
    MarkedDay {
        date: Date::parse(date).unwrap(),
        marks: (0..deals).map(|_| Ok((dec(settle), MarkSource::Settle))).collect(),
    }
}

fn row(out: &str, date: &str) -> Vec<String> {
    out.lines()
        .find(|l| l.starts_with(date))
        .unwrap_or_else(|| panic!("no row for {date} in:\n{out}"))
        .split_whitespace()
        .map(str::to_string)
        .collect()
}

#[test]
fn pnl_series_trajectory_composition_and_expiry() {
    let deals = vec![
        deal("D1", "100", "2026-03-02T10:00:00Z"),
        deal("D2", "102", "2026-03-03T10:00:00Z"),
    ];
    let series = MarketSeries {
        source: None,
        days: vec![
            day("2026-03-02", "101", 2),
            day("2026-03-03", "102", 2),
            day("2026-03-04", "105", 2),
            // frozen final settle post-expiry
            day("2026-03-05", "105", 2),
        ],
    };
    let out = pnl_series(&deals, &[fut()], Some(series), None, &[]).unwrap();
    assert_eq!(row(&out, "2026-03-02"), ["2026-03-02", "1", "0.00", "1.00", "1.00", "1.00"]);
    assert_eq!(row(&out, "2026-03-03"), ["2026-03-03", "2", "0.00", "2.00", "2.00", "1.00"]);
    assert_eq!(row(&out, "2026-03-04"), ["2026-03-04", "2", "0.00", "8.00", "8.00", "6.00"]);
    // Post-expiry: cash-settled at the frozen final settle — realized.
    assert_eq!(row(&out, "2026-03-05"), ["2026-03-05", "2", "8.00", "0.00", "8.00", "0.00"]);
    assert!(!out.contains("WARNING"), "{out}");
    assert!(
        out.starts_with("=== P&L series (4 trading days, 2 deals, 2026-03-02 \u{2192} 2026-03-05) ===\n"),
        "{out}"
    );
    assert!(out.ends_with("\n\n"), "{out}");
}

#[test]
fn pnl_series_requires_series() {
    let err = pnl_series(&[], &[], None, None, &[]).unwrap_err();
    match err {
        Error::Config(m) => assert!(m.contains("requires market_series"), "{m}"),
        other => panic!("unexpected {other:?}"),
    }
}

#[test]
fn pnl_series_without_deals_is_a_short_title() {
    let series = MarketSeries { source: None, days: vec![] };
    let out = pnl_series(&[], &[], Some(series), None, &[]).unwrap();
    assert_eq!(out, "=== P&L series (no deals) ===\n");
}

#[test]
fn pnl_series_refuses_a_book_with_integrity_errors() {
    let series = MarketSeries { source: None, days: vec![] };
    let errors = vec!["a".to_string(), "b".to_string()];
    match pnl_series(&[], &[], Some(series), None, &errors).unwrap_err() {
        Error::Config(m) => assert_eq!(m, "report 'pnl-series' refused: 2 integrity error(s), first: a"),
        other => panic!("unexpected {other:?}"),
    }
}

#[test]
fn pnl_series_needs_a_day_to_run_through() {
    let deals = vec![deal("D1", "100", "2026-03-02T10:00:00Z")];
    let series = MarketSeries { source: None, days: vec![] };
    match pnl_series(&deals, &[fut()], Some(series), None, &[]).unwrap_err() {
        Error::Config(m) => assert_eq!(m, "market series is empty"),
        other => panic!("unexpected {other:?}"),
    }
}

#[test]
fn pnl_series_warns_about_unpriced_days_and_names_the_source() {
    let deals = vec![deal("D1", "100", "2026-03-02T10:00:00Z")];
    let series = MarketSeries {
        source: Some("ICE".to_string()),
        days: vec![
            MarkedDay {
                date: Date::new(2026, 3, 2),
                marks: vec![Err(Error::MarketData("no settle".to_string()))],
            },
            day("2026-03-03", "103", 1),
        ],
    };
    let out = pnl_series(&deals, &[fut()], Some(series), Some(Date::new(2026, 3, 3)), &[]).unwrap();
    assert!(out.starts_with("=== P&L series (2 trading days, 1 deals, 2026-03-02 \u{2192} 2026-03-03 [ICE]) ===\n"), "{out}");
    assert_eq!(row(&out, "2026-03-02"), ["2026-03-02", "1", "0.00", "0.00", "0.00", "0.00"]);
    assert_eq!(row(&out, "2026-03-03"), ["2026-03-03", "1", "0.00", "3.00", "3.00", "3.00"]);
    assert!(out.contains(
        "WARNING: 2026-03-02: 1 deal(s) unpriced and excluded from that day's totals\n"
    ));
}

#[test]
fn try_pnl_series_reports_overflow() {
    let mut d = deal("D1", "0", "2026-03-02T10:00:00Z");
    d.quantity = Decimal::parse("79228162514264337593543950335").unwrap();
    let series = MarketSeries { source: None, days: vec![day("2026-03-02", "2", 1)] };
    assert!(try_pnl_series(&[d], &[fut()], Some(series), None, &[]).is_none());
}

#[test]
fn day_changes_add_up_to_the_last_total() {
    let deals = vec![
        deal("D1", "100", "2026-03-02T10:00:00Z"),
        deal("D2", "102", "2026-03-03T10:00:00Z"),
    ];
    let series = MarketSeries {
        source: None,
        days: vec![
            day("2026-03-02", "101", 2),
            day("2026-03-03", "99.5", 2),
            day("2026-03-04", "105.25", 2),
            day("2026-03-05", "104", 2),
        ],
    };
    let out = pnl_series(&deals, &[fut()], Some(series), None, &[]).unwrap();
    let days = ["2026-03-02", "2026-03-03", "2026-03-04", "2026-03-05"];
    let mut sum = Decimal::zero();
    for d in days {
        sum = sum.checked_add(dec(&row(&out, d)[5])).unwrap();
    }
    assert_eq!(sum, dec(&row(&out, "2026-03-05")[4]));
}
