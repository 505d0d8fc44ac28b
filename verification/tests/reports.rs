use qloxide::reports::{available, describe, descriptions, report_kind, ReportKind};

#[test]
fn registry_lists_reports_in_order() {
    assert_eq!(available(), vec!["instruments", "deals", "positions", "pnl", "pnl-series", "risk"]);
    assert_eq!(descriptions().len(), 6);
    assert_eq!(descriptions()[1], ("deals", "Trade-by-trade deal listing"));
}

#[test]
fn describe_known_and_unknown() {
    assert_eq!(describe("positions"), Some("Compressed net positions per instrument"));
    assert_eq!(describe("nope"), None);
}

#[test]
fn unknown_report_names_the_available_ones() {
    assert_eq!(report_kind("pnl-series").unwrap(), ReportKind::PnlSeries);
    let err = report_kind("pnl2").unwrap_err().to_string();
    assert_eq!(
        err,
        "config: unknown report 'pnl2'. available: instruments, deals, positions, pnl, pnl-series, risk"
    );
}
