use qloxide::cli::{book_tier, check_requested, config_help, report_long_help, reports_to_run, risk_tier};

fn strings(v: &[&str]) -> Vec<String> {
    v.iter().map(|s| s.to_string()).collect()
}

#[test]
fn book_serves_everything_but_risk() {
    let book = book_tier();
    for name in ["instruments", "deals", "positions", "pnl", "pnl-series"] {
        assert!(book.serves(name), "{name}");
    }
    assert!(!book.serves("risk"));
    let risk = risk_tier();
    assert!(risk.serves("risk"));
    assert!(!risk.serves("pnl"));
}

#[test]
fn wrong_tier_requests_point_to_the_sibling_binary() {
    let book = book_tier();
    assert_eq!(
        book.rejection("risk", ""),
        "report 'risk' (Position greeks, calibration residuals, model marks + model book value)  is not served by qloxide-book \u{2014} run qloxide-risk instead"
    );
    assert_eq!(
        book.rejection("bogus", "(from config)"),
        "unknown report 'bogus' (from config). available in qloxide-book: instruments, deals, positions, pnl, pnl-series"
    );
}

#[test]
fn long_help_aligns_the_names() {
    let help = report_long_help(&risk_tier());
    assert_eq!(
        help,
        "Reports to run (overrides config).\n\n  risk  Position greeks, calibration residuals, model marks + model book value"
    );
    let help = report_long_help(&book_tier());
    assert!(help.contains("\n  pnl          P&L on raw deals"), "{help}");
    assert!(help.contains("\n  pnl-series   Daily portfolio P&L"), "{help}");
}

#[test]
fn requested_reports_are_checked_against_the_tier() {
    assert!(check_requested(&book_tier(), &strings(&["pnl", "deals"])).is_ok());
    let err = check_requested(&book_tier(), &strings(&["pnl", "risk"])).unwrap_err();
    assert!(err.contains("run qloxide-risk instead"), "{err}");
}

#[test]
fn reports_to_run_prefers_the_command_line_then_the_config_then_the_fallback() {
    let risk = risk_tier();
    assert_eq!(reports_to_run(&risk, &strings(&["risk"]), &strings(&["pnl"])).unwrap(), strings(&["risk"]));
    assert_eq!(reports_to_run(&risk, &[], &[]).unwrap(), strings(&["risk"]));
    assert_eq!(reports_to_run(&book_tier(), &[], &[]).unwrap(), Vec::<String>::new());
    let err = reports_to_run(&risk, &[], &strings(&["pnl"])).unwrap_err();
    assert!(err.contains("(from config) is not served by qloxide-risk"), "{err}");
    assert_eq!(
        reports_to_run(&book_tier(), &[], &strings(&["pnl", "deals"])).unwrap(),
        strings(&["pnl", "deals"])
    );
}

#[test]
fn config_help_documents_the_schema() {
    let help = config_help();
    assert!(help.starts_with("CONFIG (TOML):\n"));
    assert!(help.contains("reason = \"upstream data gap\""));
    assert!(help.ends_with("Paths are resolved relative to the config file's directory."));
}
