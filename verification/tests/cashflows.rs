use std::sync::Arc;

use qloxide::cashflows::{add_months, days_in_month, CashFlow, CashFlowSchedule, Frequency};
use qloxide::dates::calendar::Calendar;
use qloxide::dates::daycount::DayCount;
use qloxide::dates::rules::DateRule;
use qloxide::dates::Date;
use qloxide::decimal::Decimal;
use qloxide::reference_data::Currency;

fn usd() -> Arc<Currency> {
    Arc::new(Currency::new("USD", DateRule::Null, DayCount::Act360))
}

#[test]
fn cashflow_construction() {
    let cf = CashFlow::new(Decimal::from_i64(1_000_000), usd(), Date::new(2025, 12, 15));
    assert_eq!(cf.amount, Decimal::from_i64(1_000_000));
    assert_eq!(cf.currency.id, "USD");
    assert_eq!(cf.pay_date, Date::new(2025, 12, 15));
}

#[test]
fn schedule_quarterly() {
    let start = Date::new(2025, 1, 15);
    let end = Date::new(2026, 1, 15);
    let sched = CashFlowSchedule::generate(start, end, Frequency::Quarterly, &DateRule::Null);
    // 1Y with quarterly = 5 dates (start + 4 periods)
    assert_eq!(sched.dates.len(), 5);
    assert_eq!(sched.dates[0], start);
    assert_eq!(sched.dates[4], end);
    assert_eq!(sched.dates[1], Date::new(2025, 4, 15));
    assert_eq!(sched.dates[2], Date::new(2025, 7, 15));
    assert_eq!(sched.dates[3], Date::new(2025, 10, 15));
}

#[test]
fn schedule_semiannual() {
    let start = Date::new(2025, 6, 1);
    let end = Date::new(2027, 6, 1);
    let sched = CashFlowSchedule::generate(start, end, Frequency::SemiAnnual, &DateRule::Null);
    assert_eq!(sched.dates.len(), 5); // start + 4 semi-annual dates
    assert_eq!(sched.periods().len(), 4);
}

#[test]
fn schedule_bullet() {
    let sched = CashFlowSchedule::bullet(Date::new(2025, 1, 1), Date::new(2030, 1, 1));
    assert_eq!(sched.dates.len(), 2);
    assert_eq!(sched.periods().len(), 1);
}

#[test]
fn add_months_end_of_month() {
    // Jan 31 + 1 month = Feb 28 (non-leap) or Feb 29 (leap)
    let d = add_months(Date::new(2025, 1, 31), 1);
    assert_eq!(d, Date::new(2025, 2, 28));

    let d_leap = add_months(Date::new(2024, 1, 31), 1);
    assert_eq!(d_leap, Date::new(2024, 2, 29));
}

#[test]
fn add_months_backwards_across_a_year() {
    assert_eq!(add_months(Date::new(2025, 3, 31), -4), Date::new(2024, 11, 30));
}

#[test]
fn schedule_with_business_day_adjustment() {
    let start = Date::new(2025, 1, 15);
    let end = Date::new(2025, 7, 15);
    let rule = DateRule::ModifiedFollowing { calendar: Calendar::Weekday };
    let sched = CashFlowSchedule::generate(start, end, Frequency::Quarterly, &rule);
    // All intermediate dates should be weekdays
    for &d in &sched.dates[1..sched.dates.len() - 1] {
        let wd = d.weekday();
        assert!(wd >= 1 && wd <= 5, "date {} is not a weekday", d.to_string());
    }
}

#[test]
fn frequencies() {
    assert_eq!(Frequency::Quarterly.months(), 3);
    assert_eq!(Frequency::SemiAnnual.per_year(), 2);
    assert_eq!(days_in_month(2024, 2), 29);
    assert_eq!(days_in_month(2100, 2), 28);
}
