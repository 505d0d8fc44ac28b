//! Business-day adjustment rules.

use vstd::prelude::*;

use super::calendar::{
    lemma_step_is_business_day, sorted_calendar, spec_is_holiday, spec_step, step_in_range, Calendar,
};
use super::civil::month_of_day;
use super::Date;

verus! {

/// Rule for adjusting dates to business days.
#[derive(Clone, Debug)]
pub enum DateRule {
    /// No adjustment — use the date as-is.
    Null,
    /// Step by a number of business days, optionally slipping forward or back.
    BusinessDays { calendar: Calendar, step: i32, slip_forward: bool },
    /// Modified Following: move to the next business day, but if that crosses
    /// a month boundary, move to the previous business day instead.
    ModifiedFollowing { calendar: Calendar },
}

/// Day number of `DateRule::apply` on the date with day number `n`.
pub open spec fn spec_apply(rule: DateRule, n: int) -> int {
    match rule {
        DateRule::Null => n,
        DateRule::BusinessDays { calendar, step, slip_forward } => spec_step(
            calendar,
            n,
            step as int,
            slip_forward,
        ),
        DateRule::ModifiedFollowing { calendar } => {
            let adjusted = spec_step(calendar, n, 0, true);
            if month_of_day(adjusted) != month_of_day(n) {
                spec_step(calendar, n, 0, false)
            } else {
                adjusted
            }
        },
    }
}

/// The calendar of `rule` has sorted holiday lists.
pub open spec fn rule_sorted(rule: DateRule) -> bool {
    match rule {
        DateRule::Null => true,
        DateRule::BusinessDays { calendar, .. } => sorted_calendar(calendar),
        DateRule::ModifiedFollowing { calendar } => sorted_calendar(calendar),
    }
}

/// Applying `rule` to day number `n` stays inside the supported range.
pub open spec fn apply_in_range(rule: DateRule, n: int) -> bool {
    match rule {
        DateRule::Null => true,
        DateRule::BusinessDays { calendar, step, slip_forward } => step_in_range(
            calendar,
            n,
            step as int,
            slip_forward,
        ),
        DateRule::ModifiedFollowing { calendar } => {
            &&& step_in_range(calendar, n, 0, true)
            &&& month_of_day(spec_step(calendar, n, 0, true)) != month_of_day(n) ==> step_in_range(
                calendar,
                n,
                0,
                false,
            )
        },
    }
}

/// Every calendar rule adjusts onto a business day of its calendar.
pub proof fn lemma_adjusted_is_business_day(rule: DateRule, n: int)
    requires
        apply_in_range(rule, n),
    ensures
        rule matches DateRule::BusinessDays { calendar, .. } ==> !spec_is_holiday(
            calendar,
            spec_apply(rule, n),
        ),
        rule matches DateRule::ModifiedFollowing { calendar } ==> !spec_is_holiday(
            calendar,
            spec_apply(rule, n),
        ),
{
    match rule {
        DateRule::Null => {},
        DateRule::BusinessDays { calendar, step, slip_forward } => {
            lemma_step_is_business_day(calendar, n, step as int, slip_forward);
        },
        DateRule::ModifiedFollowing { calendar } => {
            lemma_step_is_business_day(calendar, n, 0, true);
            if month_of_day(spec_step(calendar, n, 0, true)) != month_of_day(n) {
                lemma_step_is_business_day(calendar, n, 0, false);
            }
        },
    }
}

impl DateRule {
    /// Apply this rule to adjust a date.
    pub fn apply(&self, date: Date) -> (r: Date)
        requires
            rule_sorted(*self),
            apply_in_range(*self, date@),
        ensures
            r@ == spec_apply(*self, date@),
    {
        match self {
            DateRule::Null => date,
            DateRule::BusinessDays { calendar, step, slip_forward } => calendar.step(
                date,
                *step,
                *slip_forward,
            ),
            DateRule::ModifiedFollowing { calendar } => {
                let adjusted = calendar.step(date, 0, true);
                proof {
                    use_type_invariant(&adjusted);
                    use_type_invariant(&date);
                    Date::lemma_month_of_day(adjusted);
                    Date::lemma_month_of_day(date);
                }
                if adjusted.month() != date.month() {
                    calendar.step(date, 0, false)
                } else {
                    adjusted
                }
            },
        }
    }

    /// Convenience: next business day (step=0, slip forward).
    pub fn next(calendar: Calendar) -> (r: DateRule)
        ensures
            r == (DateRule::BusinessDays { calendar, step: 0, slip_forward: true }),
    {
        DateRule::BusinessDays { calendar, step: 0, slip_forward: true }
    }

    /// Convenience: previous business day (step=0, slip backward).
    pub fn prev(calendar: Calendar) -> (r: DateRule)
        ensures
            r == (DateRule::BusinessDays { calendar, step: 0, slip_forward: false }),
    {
        DateRule::BusinessDays { calendar, step: 0, slip_forward: false }
    }

    /// Convenience: step forward N business days (the count is taken as
    /// an `i32`, wrapping above `i32::MAX`).
    pub fn step_forward(calendar: Calendar, step: u32) -> (r: DateRule)
        ensures
            r == (DateRule::BusinessDays { calendar, step: step as i32, slip_forward: true }),
    {
        DateRule::BusinessDays { calendar, step: step as i32, slip_forward: true }
    }

    /// Convenience: step backward N business days.
    pub fn step_back(calendar: Calendar, step: u32) -> (r: DateRule)
        requires
            step != 0x8000_0000,
        ensures
            r == (DateRule::BusinessDays { calendar, step: (-(step as i32)) as i32, slip_forward: false }),
    {
        proof {
            assert((step as i32) != i32::MIN) by (bit_vector)
                requires
                    step != 0x8000_0000u32,
            ;
        }
        DateRule::BusinessDays { calendar, step: -(step as i32), slip_forward: false }
    }
}

} // verus!
