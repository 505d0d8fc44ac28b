use qloxide::dates::calendar::Calendar;
use qloxide::dates::daycount::thirty360_day_count;
use qloxide::dates::instant::{Time, Timestamp};
use qloxide::dates::rules::DateRule;
use qloxide::dates::Date;
use qloxide::dates::daycount::DayCount;
use qloxide::decimal::Decimal;

#[test]
fn date_new() {
    let d = Date::new(2025, 6, 14);
    assert_eq!(d.year(), 2025);
    assert_eq!(d.month(), 6);
    assert_eq!(d.day(), 14);
}

#[test]
fn date_try_new_invalid() {
    assert!(Date::try_new(2025, 2, 30).is_err());
}

#[test]
fn date_arithmetic() {
    let d = Date::new(2025, 6, 14);
    let d2 = d.add_days(7);
    assert_eq!(d2, Date::new(2025, 6, 21));
    assert_eq!(d2.days_since(&d), 7);
    assert_eq!(d2.sub_days(7), d);
}

#[test]
fn date_weekday() {
    // 2025-06-14 is a Saturday = 6
    let d = Date::new(2025, 6, 14);
    assert_eq!(d.weekday(), 6);
    // 2025-06-16 is a Monday = 1
    let d2 = Date::new(2025, 6, 16);
    assert_eq!(d2.weekday(), 1);
}

#[test]
fn date_ordering() {
    let d1 = Date::new(2025, 1, 1);
    let d2 = Date::new(2025, 12, 31);
    assert!(d1 < d2);
    assert!(d1.is_before(&d2));
}

#[test]
fn date_from_str() {
    let d = Date::parse("2025-06-14").unwrap();
    assert_eq!(d, Date::new(2025, 6, 14));
}

#[test]
fn date_display() {
    let d = Date::new(2025, 6, 14);
    assert_eq!(d.to_string(), "2025-06-14");
}

#[test]
fn date_as_of_midnight() {
    let d = Date::new(2026, 3, 7);
    let ts = d.as_of_midnight();
    assert_eq!(ts, Timestamp::parse("2026-03-07T00:00:00Z").unwrap());
}

#[test]
fn timestamp_parse() {
    let ts = Timestamp::parse("2025-06-14T14:32:07Z").unwrap();
    assert_eq!(ts.date(), Date::new(2025, 6, 14));
}

#[test]
fn timestamp_before_epoch_belongs_to_the_previous_day() {
    let ts = Timestamp::from_second(-1).unwrap();
    assert_eq!(ts.date(), Date::new(1969, 12, 31));
    assert_eq!(ts.to_string(), "1969-12-31T23:59:59Z");
    assert!(Timestamp::from_second(253402207201).is_err());
}

#[test]
fn time_parses_hh_mm_and_rejects_the_rest() {
    let t = Time::parse("19:30").unwrap();
    assert_eq!((t.hour(), t.minute()), (19, 30));
    assert_eq!(t.to_string(), "19:30");
    assert_eq!(Time::new(7, 5).to_string(), "07:05");
    assert!(Time::parse("bad").is_err());
    assert!(Time::parse("25:30").is_err());
    assert!(Time::parse("19:75").is_err());
}

#[test]
fn everyday_no_holidays() {
    let cal = Calendar::EveryDay;
    let saturday = Date::new(2025, 6, 14);
    assert!(!cal.is_holiday(saturday));
}

#[test]
fn weekday_weekend_is_holiday() {
    let cal = Calendar::Weekday;
    let saturday = Date::new(2025, 6, 14);
    let sunday = Date::new(2025, 6, 15);
    let monday = Date::new(2025, 6, 16);
    assert!(cal.is_holiday(saturday));
    assert!(cal.is_holiday(sunday));
    assert!(!cal.is_holiday(monday));
}

#[test]
fn weekday_and_holiday() {
    let cal = Calendar::WeekdayAndHoliday {
        name: "NYSE".to_string(),
        holidays: vec![Date::new(2025, 12, 25)], // Christmas
    };
    assert!(cal.is_holiday(Date::new(2025, 12, 25))); // Thursday holiday
    assert!(!cal.is_holiday(Date::new(2025, 12, 24))); // Wednesday, not holiday
    assert!(cal.is_holiday(Date::new(2025, 12, 27))); // Saturday
}

#[test]
fn step_forward() {
    let cal = Calendar::Weekday;
    // Friday + 1 business day = Monday
    let friday = Date::new(2025, 6, 13);
    assert_eq!(cal.step(friday, 1, true), Date::new(2025, 6, 16));
}

#[test]
fn step_from_weekend_slips_forward() {
    let cal = Calendar::Weekday;
    let saturday = Date::new(2025, 6, 14);
    assert_eq!(cal.step(saturday, 0, true), Date::new(2025, 6, 16));
}

#[test]
fn step_from_weekend_slips_backward() {
    let cal = Calendar::Weekday;
    let saturday = Date::new(2025, 6, 14);
    assert_eq!(cal.step(saturday, 0, false), Date::new(2025, 6, 13));
}

#[test]
fn step_backward() {
    let cal = Calendar::Weekday;
    // Monday - 1 business day = Friday
    let monday = Date::new(2025, 6, 16);
    assert_eq!(cal.step(monday, -1, true), Date::new(2025, 6, 13));
}

#[test]
fn count_business_days_one_week() {
    let cal = Calendar::Weekday;
    let monday = Date::new(2025, 6, 16);
    let next_monday = Date::new(2025, 6, 23);
    assert_eq!(cal.count_business_days(monday, next_monday), 5);
}

#[test]
fn count_business_days_with_holidays() {
    let cal = Calendar::WeekdayAndHoliday {
        name: "Test".to_string(),
        holidays: vec![Date::new(2025, 6, 18)], // Wednesday
    };
    let monday = Date::new(2025, 6, 16);
    let next_monday = Date::new(2025, 6, 23);
    assert_eq!(cal.count_business_days(monday, next_monday), 4);
}

#[test]
fn count_business_days_negative() {
    let cal = Calendar::Weekday;
    let monday = Date::new(2025, 6, 16);
    let next_monday = Date::new(2025, 6, 23);
    assert_eq!(cal.count_business_days(next_monday, monday), -5);
}

#[test]
fn volatility_calendar_counts_backwards_negatively() {
    let cal = Calendar::Volatility {
        name: "Vol".to_string(),
        calendar: Box::new(Calendar::Weekday),
        holiday_weight: 0.0f64.to_bits(),
    };
    let monday = Date::new(2025, 6, 16);
    let next_monday = Date::new(2025, 6, 23);
    assert_eq!(cal.count_business_days(monday, next_monday), 5);
    assert_eq!(cal.count_business_days(next_monday, monday), -5);
    let every = Calendar::Volatility {
        name: "Vol".to_string(),
        calendar: Box::new(Calendar::EveryDay),
        holiday_weight: 0.0f64.to_bits(),
    };
    assert_eq!(every.count_business_days(next_monday, monday), -7);
}

#[test]
fn count_business_days_is_antisymmetric_on_a_holiday_calendar() {
    let cal = Calendar::WeekdayAndHoliday {
        name: "Test".to_string(),
        holidays: vec![Date::new(2025, 6, 18), Date::new(2025, 7, 4)],
    };
    let a = Date::new(2025, 6, 10);
    let b = Date::new(2025, 7, 10);
    assert_eq!(cal.count_business_days(a, b), -cal.count_business_days(b, a));
    assert_eq!(cal.count_business_days(a, b), 20);
}

#[test]
fn calendar_names() {
    assert_eq!(Calendar::EveryDay.name(), "EveryDay");
    assert_eq!(Calendar::Weekday.name(), "Weekday");
    let cal = Calendar::WeekdayAndHoliday { name: "LSE".to_string(), holidays: vec![] };
    assert_eq!(cal.name(), "LSE");
}

#[test]
fn null_rule() {
    let rule = DateRule::Null;
    let d = Date::new(2025, 6, 14); // Saturday
    assert_eq!(rule.apply(d), d);
}

#[test]
fn next_business_day() {
    let rule = DateRule::next(Calendar::Weekday);
    let saturday = Date::new(2025, 6, 14);
    assert_eq!(rule.apply(saturday), Date::new(2025, 6, 16)); // Monday
}

#[test]
fn prev_business_day() {
    let rule = DateRule::prev(Calendar::Weekday);
    let saturday = Date::new(2025, 6, 14);
    assert_eq!(rule.apply(saturday), Date::new(2025, 6, 13)); // Friday
}

#[test]
fn step_forward_two_days() {
    let rule = DateRule::step_forward(Calendar::Weekday, 2);
    let friday = Date::new(2025, 6, 13);
    assert_eq!(rule.apply(friday), Date::new(2025, 6, 17)); // Tuesday
}

#[test]
fn step_back_two_days() {
    let rule = DateRule::step_back(Calendar::Weekday, 2);
    let monday = Date::new(2025, 6, 16);
    assert_eq!(rule.apply(monday), Date::new(2025, 6, 12)); // Thursday
}

#[test]
fn modified_following_no_month_cross() {
    let rule = DateRule::ModifiedFollowing { calendar: Calendar::Weekday };
    let saturday = Date::new(2025, 6, 14);
    assert_eq!(rule.apply(saturday), Date::new(2025, 6, 16)); // Monday
}

#[test]
fn modified_following_month_boundary() {
    let rule = DateRule::ModifiedFollowing { calendar: Calendar::Weekday };
    // Aug 31, 2025 is Sunday. Next bday is Sep 1 (crosses month).
    // So it should go to prev bday: Aug 29 (Friday).
    let end_of_month = Date::new(2025, 8, 31);
    assert_eq!(rule.apply(end_of_month), Date::new(2025, 8, 29));
}

#[test]
fn thirty360_counts_months_as_thirty_days() {
    assert_eq!(thirty360_day_count(Date::new(2025, 1, 15), Date::new(2025, 7, 15)), 180);
    // Day 31 counts as day 30 on both ends.
    assert_eq!(thirty360_day_count(Date::new(2025, 1, 31), Date::new(2025, 3, 31)), 60);
}

#[test]
fn accrue_thirty360_half_year_is_exact() {
    // 100 face * 5% * half year under 30/360 = exactly 2.5
    let base = Decimal::parse("5").unwrap();
    let amount = DayCount::Thirty360.accrue(
        base,
        Date::new(2025, 1, 1),
        Date::new(2025, 7, 1),
    );
    assert_eq!(amount, Decimal::parse("2.5").unwrap());
}

#[test]
fn accrue_two_month_stub_is_exact() {
    // 100 * 6% * 60/360 = exactly 1
    let base = Decimal::parse("6").unwrap();
    let amount = DayCount::Thirty360.accrue(
        base,
        Date::new(2025, 1, 1),
        Date::new(2025, 3, 1),
    );
    assert_eq!(amount, Decimal::from(1u32));
}

#[test]
fn act_act_isda_accrues_per_calendar_year() {
    // 184/366 + 181/365 of 366*365 = 184*365 + 181*366
    let base = Decimal::from(366u32 * 365);
    let amount = DayCount::ActActIsda.accrue(base, Date::new(2024, 7, 1), Date::new(2025, 7, 1));
    assert!(amount.value_equals(&Decimal::from(184u32 * 365 + 181 * 366)), "{}", amount.to_string());
    let same = DayCount::Act360.accrue(Decimal::from(360u32), Date::new(2025, 1, 1), Date::new(2025, 1, 31));
    assert_eq!(same.to_string(), "30");
}

#[test]
fn time_text_roundtrips() {
    for (h, m) in [(0u8, 0u8), (9, 5), (19, 30), (23, 59)] {
        let t = Time::new(h, m);
        let back = Time::parse(&t.to_string()).unwrap();
        assert_eq!(back, t);
    }
}

#[test]
fn shifting_a_date_forth_and_back_returns_it() {
    let d = Date::new(2024, 2, 28);
    assert_eq!(d.add_days(400).sub_days(400), d);
    assert_eq!(d.add_days(-1000).days_since(&d), -1000);
}
