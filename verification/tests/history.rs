use qloxide::dates::Date;
use qloxide::error::Error;
use qloxide::store::{MarketStore, StoreDay};
use qloxide::dates::instant::Timestamp;
use qloxide::history::{
    check_market_days, check_merge, check_quote_days, find_day, history_span, missing_day,
    unmatched_vol_day, valuation_day, DayKeys,
};

fn d(s: &str) -> Date {
    Date::parse(s).unwrap()
}

fn message(e: Error) -> String {
    match e {
        Error::MarketData(m) => m,
        other => panic!("expected a market data error, got {other:?}"),
    }
}

#[test]
fn validate_rejects_empty_and_unordered() {
    assert!(check_market_days(&[]).is_err());
    let err = message(check_market_days(&[d("2026-07-02"), d("2026-07-01")]).unwrap_err());
    assert!(err.contains("ascending"), "{err}");
    assert_eq!(err, "market history days not strictly ascending: 2026-07-02 then 2026-07-01");
    assert!(check_market_days(&[d("2026-07-01"), d("2026-07-01")]).is_err());
    assert!(check_market_days(&[d("2026-07-01"), d("2026-07-02")]).is_ok());
}

#[test]
fn quote_days_must_ascend() {
    assert_eq!(message(check_quote_days(&[]).unwrap_err()), "quote history has no days");
    let err = message(check_quote_days(&[d("2026-07-02"), d("2026-07-01")]).unwrap_err());
    assert!(err.contains("ascending"), "{err}");
    assert!(check_quote_days(&[d("2026-07-01"), d("2026-07-02")]).is_ok());
}

#[test]
fn day_lookup_and_coverage() {
    let days = [d("2026-07-01"), d("2026-07-03")];
    assert_eq!(find_day(&days, d("2026-07-03")), Some(1));
    assert_eq!(find_day(&days, d("2026-07-02")), None);
    assert_eq!(history_span(&days), "2026-07-01..2026-07-03");
    assert_eq!(history_span(&[]), "nothing");
    assert_eq!(
        message(missing_day(&days, d("2026-07-04"))),
        "no market data for 2026-07-04 (history covers 2026-07-01..2026-07-03)"
    );
}

#[test]
fn merge_days_requires_alignment() {
    let days = [d("2026-07-01"), d("2026-07-02")];
    assert_eq!(find_day(&days, d("2026-07-02")), Some(1));
    assert_eq!(find_day(&days, d("2026-07-09")), None);
    let err = message(unmatched_vol_day(&days, d("2026-07-09")));
    assert!(err.contains("no matching market day"), "{err}");
}

fn manifest_store() -> MarketStore {
    MarketStore::new(
        vec![
            StoreDay {
                date: d("2026-07-10"),
                file: "market-2026-07-10.json".to_string(),
                settles: vec!["FUT".to_string(), "OPT".to_string()],
            },
            StoreDay {
                date: d("2026-07-13"),
                file: "market-2026-07-13.json".to_string(),
                settles: vec!["FUT".to_string()],
            },
        ],
        vec![d("2026-07-11"), d("2026-07-12")],
        Some("ICE".to_string()),
        Some("test 0.0.0".to_string()),
    )
}

#[test]
fn store_calendar_and_coverage() {
    let store = manifest_store();
    assert_eq!(store.len(), 2);
    assert!(!store.is_empty());
    assert_eq!(store.first_day(), Some(Date::new(2026, 7, 10)));
    assert_eq!(store.last_day(), Some(Date::new(2026, 7, 13)));
    assert_eq!(store.days(), vec![Date::new(2026, 7, 10), Date::new(2026, 7, 13)]);
    assert!(store.is_trading_day(Date::new(2026, 7, 10)));
    assert!(!store.is_trading_day(Date::new(2026, 7, 11)));
    assert!(store.is_known(Date::new(2026, 7, 11)));
    assert!(!store.is_known(Date::new(2026, 7, 20)));
    assert!(store.has_settle(Date::new(2026, 7, 10), "OPT"));
    assert!(!store.has_settle(Date::new(2026, 7, 13), "OPT"));
    assert_eq!(store.source(), Some("ICE"));
    assert_eq!(store.generator(), Some("test 0.0.0"));
}

#[test]
fn store_missing_day_errors() {
    let store = manifest_store();
    let err = message(store.day_entry(Date::new(2026, 7, 11)).unwrap_err());
    assert_eq!(err, "no market snapshot for 2026-07-11 in the series");
    assert_eq!(store.day_entry(Date::new(2026, 7, 13)).unwrap().file, "market-2026-07-13.json");
}

#[test]
fn valuation_day_is_the_last_record_or_the_named_day() {
    let days = [d("2026-07-01"), d("2026-07-02"), d("2026-07-06")];
    assert_eq!(valuation_day(Some(&days), None).unwrap(), Some(2));
    assert_eq!(valuation_day(Some(&days), Some(d("2026-07-02"))).unwrap(), Some(1));
    assert_eq!(
        message(valuation_day(Some(&days), Some(d("2026-07-03"))).unwrap_err()),
        "no market data for 2026-07-03 (history covers 2026-07-01..2026-07-06)"
    );
    assert_eq!(message(valuation_day(Some(&[]), None).unwrap_err()), "market history has no days");
    assert_eq!(valuation_day(None, None).unwrap(), None);
    match valuation_day(None, Some(d("2026-07-02"))).unwrap_err() {
        Error::Config(m) => assert_eq!(m, "--as-of 2026-07-02 without a market file"),
        other => panic!("expected a config error, got {other:?}"),
    }
}

fn keys(day: &str, at: &str, prices: &[&str], vols: &[&str]) -> DayKeys {
    DayKeys {
        valuation_date: d(day),
        as_of: Timestamp::parse(at).unwrap(),
        market_prices: prices.iter().map(|s| s.to_string()).collect(),
        settlement_prices: vec![],
        discount_curves: vec!["USD".to_string()],
        vol_surfaces: vols.iter().map(|s| s.to_string()).collect(),
    }
}

#[test]
fn merge_needs_the_same_day_and_no_shared_ids() {
    let market = keys("2026-07-01", "2026-07-01T21:00:00Z", &["ES", "NQ"], &[]);
    let vols = DayKeys { discount_curves: vec![], ..keys("2026-07-01", "2026-07-01T21:00:00Z", &[], &["ES"]) };
    assert!(check_merge(&market, &vols).is_ok());

    let late = DayKeys { discount_curves: vec![], ..keys("2026-07-01", "2026-07-01T22:00:00Z", &[], &["ES"]) };
    assert_eq!(
        message(check_merge(&market, &late).unwrap_err()),
        "valuation_date/as_of mismatch: 2026-07-01/2026-07-01T21:00:00Z vs 2026-07-01/2026-07-01T22:00:00Z"
    );

    let clashing = keys("2026-07-01", "2026-07-01T21:00:00Z", &["CL", "NQ"], &["ES"]);
    assert_eq!(message(check_merge(&market, &clashing).unwrap_err()), "duplicate market price 'NQ'");

    let curves = keys("2026-07-01", "2026-07-01T21:00:00Z", &[], &[]);
    assert_eq!(message(check_merge(&market, &curves).unwrap_err()), "duplicate discount curve 'USD'");

    let with_vols = keys("2026-07-01", "2026-07-01T21:00:00Z", &[], &["ES"]);
    let again = DayKeys { discount_curves: vec![], ..keys("2026-07-01", "2026-07-01T21:00:00Z", &[], &["ES"]) };
    let with_vols = DayKeys { discount_curves: vec![], ..with_vols };
    assert_eq!(message(check_merge(&with_vols, &again).unwrap_err()), "duplicate vol surface 'ES'");
}
