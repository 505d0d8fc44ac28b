use std::sync::Arc;

use qloxide::dates::daycount::DayCount;
use qloxide::dates::instant::Timestamp;
use qloxide::dates::rules::DateRule;
use qloxide::dates::Date;
use qloxide::decimal::Decimal;
use qloxide::error::Error;
use qloxide::instruments::{
    ClearingStatus, EuropeanOption, Future, Instrument, OptionSettlement, PutOrCall, Settlement,
};
use qloxide::portfolio::{
    compress, contract_size, mark_route, official_mark, pnl_totals, try_compress, try_pnl_totals,
    valuate_at, value_deal, MarkRoute, MarkSource, ProxyMarks, ValuedDeal,
};
use qloxide::reference_data::Currency;
use qloxide::trades::{BuySell, Deal};

fn dec(s: &str) -> Decimal {
    Decimal::parse(s).unwrap()
}

fn make_deal(id: &str, instrument: &str, dir: BuySell, qty: u32, price: &str) -> Deal {
    Deal {
        id: id.to_string(),
        instrument_id: instrument.to_string(),
        direction: dir,
        quantity: Decimal::from(qty),
        price: dec(price),
        timestamp: Timestamp::parse("2026-03-02T10:00:00Z").unwrap(),
        counterparty: "TEST".to_string(),
    }
}

fn usd() -> Arc<Currency> {
    Arc::new(Currency::new("USD", DateRule::Null, DayCount::Act360))
}

fn ice() -> Settlement {
    Settlement::new("ICE", "SETTLE", "19:30", "Europe/London", DateRule::Null)
}

fn future(id: &str, clearing: ClearingStatus) -> Instrument {
    Instrument::Future(Future::new(
        id,
        "Brent",
        usd(),
        ice(),
        clearing,
        Date::new(2026, 6, 30),
        Decimal::from(1000),
        dec("0.01"),
    ))
}

#[test]
fn compress_nets_same_instrument() {
    let deals = vec![
        make_deal("D1", "ICE-BRN-K26", BuySell::Buy, 10, "71.80"),
        make_deal("D2", "ICE-BRN-K26", BuySell::Sell, 4, "72.50"),
    ];

    let positions = compress(&deals);
    assert_eq!(positions.len(), 1);
    assert_eq!(positions[0].instrument_id, "ICE-BRN-K26");
    assert_eq!(positions[0].direction, BuySell::Buy);
    assert_eq!(positions[0].quantity, Decimal::from(6));
    // VWAP: (10*71.80 - 4*72.50) / 6 = (718 - 290) / 6 = 71.333...
    let expected_vwap = dec("71.3333333333333333333333333333");
    assert_eq!(positions[0].avg_price, expected_vwap);
}

#[test]
fn compress_fully_offset() {
    let deals = vec![
        make_deal("D1", "ICE-BRN-K26", BuySell::Buy, 10, "71.80"),
        make_deal("D2", "ICE-BRN-K26", BuySell::Sell, 10, "72.50"),
    ];

    let positions = compress(&deals);
    assert_eq!(positions.len(), 1);
    assert_eq!(positions[0].quantity, Decimal::zero());
    assert_eq!(positions[0].direction, BuySell::Buy);
    assert_eq!(positions[0].avg_price, Decimal::zero());
}

#[test]
fn compress_multiple_instruments() {
    let deals = vec![
        make_deal("D1", "ICE-BRN-K26", BuySell::Buy, 10, "71.80"),
        make_deal("D2", "ICE-BRN-M26", BuySell::Sell, 5, "71.50"),
        make_deal("D3", "ICE-BRN-K26", BuySell::Buy, 5, "72.00"),
    ];

    let positions = compress(&deals);
    assert_eq!(positions.len(), 2);
    // Sorted by instrument_id
    assert_eq!(positions[0].instrument_id, "ICE-BRN-K26");
    assert_eq!(positions[0].quantity, Decimal::from(15));
    assert_eq!(positions[1].instrument_id, "ICE-BRN-M26");
    assert_eq!(positions[1].quantity, Decimal::from(5));
}

#[test]
fn compress_net_short() {
    let deals = vec![
        make_deal("D1", "ICE-BRN-K26", BuySell::Sell, 10, "72.00"),
        make_deal("D2", "ICE-BRN-K26", BuySell::Buy, 3, "71.50"),
    ];

    let positions = compress(&deals);
    assert_eq!(positions[0].direction, BuySell::Sell);
    assert_eq!(positions[0].quantity, Decimal::from(7));
    // |(-720 + 214.5) / -7| = 72.214285...
    assert_eq!(positions[0].avg_price, dec("72.214285714285714285714285714"));
}

#[test]
fn compress_sorts_ids_and_keeps_one_position_each() {
    let deals = vec![
        make_deal("D1", "B", BuySell::Buy, 1, "1"),
        make_deal("D2", "AB", BuySell::Buy, 2, "1"),
        make_deal("D3", "A", BuySell::Buy, 3, "1"),
        make_deal("D4", "B", BuySell::Sell, 1, "1"),
    ];
    let positions = try_compress(&deals).unwrap();
    let ids: Vec<&str> = positions.iter().map(|p| p.instrument_id.as_str()).collect();
    assert_eq!(ids, vec!["A", "AB", "B"]);
    assert_eq!(positions[2].quantity, Decimal::zero());
    assert!(compress(&[]).is_empty());
}

#[test]
fn compress_reports_overflow() {
    let huge = Decimal::from_parts(u32::MAX, u32::MAX, u32::MAX, false, 0);
    let mut a = make_deal("D1", "X", BuySell::Buy, 1, "1");
    a.quantity = huge;
    let b = a.clone();
    assert!(try_compress(&[a, b]).is_none());
}

#[test]
fn valuate_is_total_over_input_deals() {
    let instruments = vec![
        future("PRICED", ClearingStatus::Cleared),
        future("UNPRICED", ClearingStatus::Cleared),
    ];
    let proxies: ProxyMarks = vec![];
    let valuation_date = Date::new(2026, 3, 7);
    let deals = vec![
        make_deal("D1", "PRICED", BuySell::Buy, 10, "71.80"),
        make_deal("D2", "UNPRICED", BuySell::Buy, 5, "70.00"),
    ];
    // Settle-primary: cleared instruments mark from official settles;
    // there is a settle for PRICED only.
    let marks: Vec<_> = instruments
        .iter()
        .map(|inst| {
            let route = mark_route(inst, &proxies);
            assert!(matches!(route, MarkRoute::Settle));
            let observed = if inst.id() == "PRICED" {
                Ok(dec("72.50"))
            } else {
                Err(Error::MarketData("no settle".to_string()))
            };
            official_mark(inst.id(), &route, observed)
        })
        .collect();

    let valued = valuate_at(&deals, &instruments, valuation_date, marks);
    // Every input deal appears in the output: failures are not dropped.
    assert_eq!(valued.len(), 2);

    let v1 = valued.iter().find(|v| v.deal.id == "D1").unwrap();
    let val = v1.valuation.as_ref().unwrap();
    assert_eq!(val.mark, dec("72.50"));
    assert_eq!(val.source, MarkSource::Settle);
    // 10 * (72.50 - 71.80) * 1000 = 7000
    assert_eq!(val.pnl, Decimal::from(7000));
    assert!(!val.realized);

    // A cleared instrument with no settle errors: never a silent model
    // fallback.
    let v2 = valued.iter().find(|v| v.deal.id == "D2").unwrap();
    let err = v2.valuation.as_ref().unwrap_err().to_string();
    assert!(err.contains("no settlement price"), "expected missing-settlement error, got: {err}");

    // Unpriced deals contribute nothing to totals
    let (realized, unrealized) = pnl_totals(&valued);
    assert_eq!(realized, Decimal::zero());
    assert_eq!(unrealized, Decimal::from(7000));
}

#[test]
fn option_pnl_uses_underlying_contract_size() {
    let option = Instrument::EuropeanOption(EuropeanOption::new(
        "OPT",
        "FUT",
        "ICE",
        usd(),
        ice(),
        ClearingStatus::Uncleared,
        Date::new(2026, 6, 25),
        Decimal::from(75),
        PutOrCall::Call,
        OptionSettlement::Cash,
    ));
    let instruments = vec![future("FUT", ClearingStatus::Cleared), option];
    let proxies: ProxyMarks = vec![];
    // Uncleared: the official mark is the model price.
    let route = mark_route(&instruments[1], &proxies);
    assert!(matches!(route, MarkRoute::Model));
    let mark = official_mark("OPT", &route, Ok(dec("3.10"))).unwrap();
    assert_eq!(mark.1, MarkSource::Model);
    assert_eq!(contract_size(&instruments[1], &instruments), Decimal::from(1000));

    let deal = make_deal("D1", "OPT", BuySell::Buy, 10, "2.50");
    let val = value_deal(&deal, &instruments, Date::new(2026, 3, 10), Ok(mark)).unwrap();
    assert_eq!(val.source, MarkSource::Model);
    // signed_qty * (mark - trade) * 1000 (the underlying future's size)
    assert_eq!(val.pnl, Decimal::from(6000));
}

#[test]
fn proxy_mark_uses_twin_settle_and_names_twin_when_missing() {
    let instruments = vec![future("LOOK", ClearingStatus::Uncleared)];
    let proxies: ProxyMarks = vec![("LOOK".to_string(), "TWIN".to_string())];
    let route = mark_route(&instruments[0], &proxies);
    match &route {
        MarkRoute::Proxy { twin } => assert_eq!(twin, "TWIN"),
        other => panic!("expected proxy route, got {other:?}"),
    }
    let ok = official_mark("LOOK", &route, Ok(dec("70"))).unwrap();
    assert_eq!(ok.1, MarkSource::Proxy);
    let err = official_mark("LOOK", &route, Err(Error::MarketData("x".to_string()))).unwrap_err();
    assert_eq!(
        err.to_string(),
        "pricer: uncleared instrument 'LOOK' proxies 'TWIN': no settlement price for the twin at valuation date"
    );
}

#[test]
fn expired_deal_is_realized_and_unknown_instrument_errors() {
    let instruments = vec![future("FUT", ClearingStatus::Cleared)];
    let deal = make_deal("D1", "FUT", BuySell::Sell, 2, "70");
    let after_expiry = Date::new(2026, 7, 1);
    let val = value_deal(&deal, &instruments, after_expiry, Ok((dec("71"), MarkSource::Settle)))
        .unwrap();
    assert!(val.realized);
    assert_eq!(val.pnl, Decimal::from_i64(-2000));
    let on_expiry = value_deal(&deal, &instruments, Date::new(2026, 6, 30), Ok((dec("71"), MarkSource::Settle)))
        .unwrap();
    assert!(!on_expiry.realized);

    let stray = make_deal("D2", "NOPE", BuySell::Buy, 1, "1");
    let err = value_deal(&stray, &instruments, after_expiry, Ok((dec("1"), MarkSource::Settle)))
        .unwrap_err();
    assert_eq!(err.to_string(), "pricer: unknown instrument 'NOPE'");
}

#[test]
fn pnl_totals_split_realized_and_unrealized() {
    let instruments = vec![future("FUT", ClearingStatus::Cleared)];
    let deals = vec![
        make_deal("D1", "FUT", BuySell::Buy, 1, "70"),
        make_deal("D2", "FUT", BuySell::Buy, 1, "69"),
    ];
    let mut valued: Vec<ValuedDeal> = valuate_at(
        &deals,
        &instruments,
        Date::new(2026, 7, 1),
        vec![Ok((dec("71"), MarkSource::Settle)), Ok((dec("71"), MarkSource::Settle))],
    );
    let (realized, unrealized) = try_pnl_totals(&valued).unwrap();
    assert_eq!(realized, Decimal::from(3000));
    assert_eq!(unrealized, Decimal::zero());
    valued[1].valuation = Err(Error::Pricer("x".to_string()));
    let (realized, _) = pnl_totals(&valued);
    assert_eq!(realized, Decimal::from(1000));
}

#[test]
fn unpriced_deals_add_nothing_to_the_totals() {
    let instruments = vec![future("FUT", ClearingStatus::Cleared)];
    let deals = vec![make_deal("D1", "FUT", BuySell::Sell, 2, "70")];
    let mut valued: Vec<ValuedDeal> = valuate_at(
        &deals,
        &instruments,
        Date::new(2026, 3, 2),
        vec![Ok((dec("69.5"), MarkSource::Settle))],
    );
    let before = pnl_totals(&valued);
    valued.push(ValuedDeal {
        deal: make_deal("D2", "FUT", BuySell::Buy, 7, "1"),
        valuation: Err(Error::MarketData("no settle".to_string())),
    });
    let after = pnl_totals(&valued);
    assert_eq!(before, after);
    assert_eq!(after.1, Decimal::from(1000));
}

#[test]
fn reordered_deals_compress_to_the_same_positions() {
    let deals = vec![
        make_deal("D1", "ICE-BRN-K26", BuySell::Buy, 10, "71.80"),
        make_deal("D2", "ICE-BRN-M26", BuySell::Sell, 3, "70.10"),
        make_deal("D3", "ICE-BRN-K26", BuySell::Sell, 4, "72.50"),
        make_deal("D4", "ICE-BRN-M26", BuySell::Buy, 1, "70.40"),
    ];
    let reordered = vec![deals[3].clone(), deals[2].clone(), deals[0].clone(), deals[1].clone()];
    let a = compress(&deals);
    let b = compress(&reordered);
    assert_eq!(a.len(), b.len());
    for (p, q) in a.iter().zip(b.iter()) {
        assert_eq!(p.instrument_id, q.instrument_id);
        assert_eq!(p.direction, q.direction);
        assert_eq!(p.quantity, q.quantity);
        assert_eq!(p.avg_price, q.avg_price);
    }
    assert_eq!(a[1].direction, BuySell::Sell);
    assert_eq!(a[1].quantity, Decimal::from(2));
}
