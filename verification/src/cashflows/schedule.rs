//! Periodic date schedules.

use vstd::prelude::*;

use super::{days_in_month, spec_months, Frequency};
use crate::dates::civil::{
    day_number, lemma_day_number_order, max_year, min_year, spec_days_in_month, valid_ymd,
};
use crate::dates::rules::{apply_in_range, rule_sorted, spec_apply, DateRule};
use crate::dates::Date;

verus! {

/// `t / 12` rounded toward zero.
pub open spec fn trunc_div12(t: int) -> int {
    if t >= 0 {
        t / 12
    } else {
        -((-t) / 12)
    }
}

/// Remainder of `t / 12` rounded toward zero (same sign as `t`).
pub open spec fn trunc_rem12(t: int) -> int {
    t - 12 * trunc_div12(t)
}

/// Month count of `year-month` shifted by `months`.
pub open spec fn shifted_total(year: int, month: int, months: int) -> int {
    year * 12 + (month - 1) + months
}

/// Components of `add_months` applied to `year-month-day`.
pub open spec fn spec_add_months(year: int, month: int, day: int, months: int) -> (int, int, int) {
    let t = shifted_total(year, month, months);
    let ty = trunc_div12(t);
    let tm = trunc_rem12(t) + 1;
    let dim = spec_days_in_month(ty, tm);
    (ty, tm, if day < dim { day } else { dim })
}

/// `add_months` on `year-month-day` computes in `i32` and lands on a
/// supported month (it panics otherwise).
pub open spec fn add_months_ok(year: int, month: int, day: int, months: int) -> bool {
    let t = shifted_total(year, month, months);
    &&& i32::MIN <= t <= i32::MAX
    &&& min_year() <= trunc_div12(t) <= max_year()
    &&& 0 <= trunc_rem12(t)
}

/// The backward walk of `CashFlowSchedule::generate` from the date
/// `year-month-day` in steps of `k` months can compute every date it needs:
/// each step lands on a supported month, up to the first date on or before
/// the day number `start`.
pub open spec fn backward_ok(year: int, month: int, day: int, start: int, k: int) -> bool
    decreases year * 12 + month + 200000,
{
    if k < 1 || year * 12 + month + 200000 < 0 || !add_months_ok(year, month, day, -k) {
        false
    } else {
        let (ny, nm, nd) = spec_add_months(year, month, day, -k);
        if day_number(ny, nm, nd) > start {
            if ny * 12 + nm + 200000 < year * 12 + month + 200000 && ny * 12 + nm + 200000 >= 0 {
                backward_ok(ny, nm, nd, start, k)
            } else {
                false
            }
        } else {
            true
        }
    }
}

/// The dates the backward walk visits strictly after the day number
/// `start`, in the order visited (latest first).
pub open spec fn backward_dates(year: int, month: int, day: int, start: int, k: int) -> Seq<
    (int, int, int),
>
    decreases year * 12 + month + 200000,
{
    if k < 1 || year * 12 + month + 200000 < 0 || !add_months_ok(year, month, day, -k) {
        Seq::empty()
    } else {
        let (ny, nm, nd) = spec_add_months(year, month, day, -k);
        if day_number(ny, nm, nd) > start {
            if ny * 12 + nm + 200000 < year * 12 + month + 200000 && ny * 12 + nm + 200000 >= 0 {
                seq![(ny, nm, nd)] + backward_dates(ny, nm, nd, start, k)
            } else {
                Seq::empty()
            }
        } else {
            Seq::empty()
        }
    }
}

/// Day number of a (year, month, day) triple.
pub open spec fn triple_day(t: (int, int, int)) -> int {
    day_number(t.0, t.1, t.2)
}

/// A month shift that computes lands on a valid date.
proof fn lemma_add_months_valid(year: int, month: int, day: int, months: int)
    requires
        valid_ymd(year, month, day),
        add_months_ok(year, month, day, months),
    ensures
        ({
            let n = spec_add_months(year, month, day, months);
            valid_ymd(n.0, n.1, n.2)
        }),
{
    let t = shifted_total(year, month, months);
    assert(trunc_rem12(t) < 12) by {
        if t < 0 {
            assert((-t) % 12 < 12);
        }
    }
}

/// Shifting a valid date by `months` months lands on the month that many
/// months on (or back), on a valid date of it, and keeps the day of the
/// month whenever that day exists in the target month; only when the
/// target month is shorter does the day become its last day.
pub proof fn lemma_add_months_keeps_day(year: int, month: int, day: int, months: int)
    requires
        valid_ymd(year, month, day),
        add_months_ok(year, month, day, months),
    ensures
        ({
            let (ty, tm, td) = spec_add_months(year, month, day, months);
            &&& ty * 12 + tm == year * 12 + month + months
            &&& valid_ymd(ty, tm, td)
            &&& day <= spec_days_in_month(ty, tm) ==> td == day
            &&& day > spec_days_in_month(ty, tm) ==> td == spec_days_in_month(ty, tm)
        }),
{
    lemma_add_months_valid(year, month, day, months);
}

/// The backward walk of a schedule visits dates strictly between `start`
/// and the end date, each earlier than the one before: with no date
/// adjustment, a schedule's dates strictly ascend from its start to its
/// end, so every period is non-empty.
pub proof fn lemma_backward_dates_descend(year: int, month: int, day: int, start: int, k: int)
    requires
        valid_ymd(year, month, day),
    ensures
        ({
            let bd = backward_dates(year, month, day, start, k);
            &&& forall|i: int|
                0 <= i < bd.len() ==> valid_ymd((#[trigger] bd[i]).0, bd[i].1, bd[i].2) && start
                    < triple_day(bd[i]) < day_number(year, month, day)
            &&& forall|i: int, j: int|
                0 <= i < j < bd.len() ==> triple_day(#[trigger] bd[j]) < triple_day(#[trigger] bd[i])
        }),
    decreases year * 12 + month + 200000,
{
    if !(k < 1 || year * 12 + month + 200000 < 0 || !add_months_ok(year, month, day, -k)) {
        let (ny, nm, nd) = spec_add_months(year, month, day, -k);
        if day_number(ny, nm, nd) > start && ny * 12 + nm + 200000 < year * 12 + month + 200000 && ny
            * 12 + nm + 200000 >= 0 {
            lemma_add_months_valid(year, month, day, -k);
            lemma_day_number_order(ny, nm, nd, year, month, day);
            lemma_backward_dates_descend(ny, nm, nd, start, k);
            let rest = backward_dates(ny, nm, nd, start, k);
            let bd = backward_dates(year, month, day, start, k);
            assert(bd == seq![(ny, nm, nd)] + rest);
            assert forall|i: int| 0 <= i < bd.len() implies valid_ymd(
                (#[trigger] bd[i]).0,
                bd[i].1,
                bd[i].2,
            ) && start < triple_day(bd[i]) < day_number(year, month, day) by {
                if i > 0 {
                    assert(bd[i] == rest[i - 1]);
                }
            }
            assert forall|i: int, j: int| 0 <= i < j < bd.len() implies triple_day(#[trigger] bd[j])
                < triple_day(#[trigger] bd[i]) by {
                assert(bd[j] == rest[j - 1]);
                if i > 0 {
                    assert(bd[i] == rest[i - 1]);
                }
            }
        }
    }
}

/// Add months to a date, clamping the day to the last day of the target
/// month.
pub fn add_months(date: Date, months: i32) -> (r: Date)
    requires
        add_months_ok(date.spec_year(), date.spec_month(), date.spec_day(), months as int),
    ensures
        (r.spec_year(), r.spec_month(), r.spec_day()) == spec_add_months(
            date.spec_year(),
            date.spec_month(),
            date.spec_day(),
            months as int,
        ),
{
    let total_months: i32 = date.year() as i32 * 12 + (date.month() as i32 - 1) + months;
    let (q, rem): (i32, i32) = if total_months >= 0 {
        (total_months / 12, total_months % 12)
    } else {
        (-((-total_months) / 12), -((-total_months) % 12))
    };
    proof {
        assert(q == trunc_div12(total_months as int));
    }
    let target_year = q as i16;
    let target_month = (rem + 1) as i8;
    let day = date.day();
    let max_day = days_in_month(target_year, target_month);
    let clamped_day = if day < max_day {
        day
    } else {
        max_day
    };
    Date::new(target_year, target_month, clamped_day)
}

/// A schedule of dates for cash flow generation (e.g., swap coupon dates).
#[derive(Debug)]
pub struct CashFlowSchedule {
    /// Generated adjusted dates.
    pub dates: Vec<Date>,
}


/// Components of a date.
pub open spec fn ymd(d: Date) -> (int, int, int) {
    (d.spec_year(), d.spec_month(), d.spec_day())
}

proof fn lemma_backward_unfold(y: int, m: int, d: int, start: int, k: int)
    requires
        backward_ok(y, m, d, start, k),
    ensures
        add_months_ok(y, m, d, -k),
        ({
            let n = spec_add_months(y, m, d, -k);
            &&& triple_day(n) > start ==> backward_ok(n.0, n.1, n.2, start, k) && backward_dates(
                y,
                m,
                d,
                start,
                k,
            ) == seq![n] + backward_dates(n.0, n.1, n.2, start, k)
            &&& triple_day(n) <= start ==> backward_dates(y, m, d, start, k) == Seq::<
                (int, int, int),
            >::empty()
        }),
{
}

impl CashFlowSchedule {
    /// Generate a schedule of dates from `start` to `end` at the given
    /// frequency, adjusted according to the date rule.
    ///
    /// Dates are generated backwards from `end` to ensure the final period
    /// always ends on `end`. The start date is included as the first
    /// element; only the dates between them are adjusted.
    pub fn generate(start: Date, end: Date, frequency: Frequency, rule: &DateRule) -> (r:
        CashFlowSchedule)
        requires
            backward_ok(end.spec_year(), end.spec_month(), end.spec_day(), start@, spec_months(frequency)),
            rule_sorted(*rule),
            forall|i: int|
                0 <= i < backward_dates(
                    end.spec_year(),
                    end.spec_month(),
                    end.spec_day(),
                    start@,
                    spec_months(frequency),
                ).len() ==> apply_in_range(
                    *rule,
                    triple_day(
                        #[trigger] backward_dates(
                            end.spec_year(),
                            end.spec_month(),
                            end.spec_day(),
                            start@,
                            spec_months(frequency),
                        )[i],
                    ),
                ),
        ensures
            ({
                let bd = backward_dates(
                    end.spec_year(),
                    end.spec_month(),
                    end.spec_day(),
                    start@,
                    spec_months(frequency),
                );
                &&& r.dates.len() == bd.len() + 2
                &&& r.dates@[0] == start
                &&& r.dates@[bd.len() + 1int] == end
                &&& forall|i: int|
                    1 <= i <= bd.len() ==> (#[trigger] r.dates@[i])@ == spec_apply(
                        *rule,
                        triple_day(bd[bd.len() - i]),
                    )
            }),
    {
        let months = frequency.months();
        let ghost k = spec_months(frequency);
        let ghost bd = backward_dates(end.spec_year(), end.spec_month(), end.spec_day(), start@, k);
        let mut unadjusted: Vec<Date> = Vec::new();
        unadjusted.push(end);
        proof {
            lemma_backward_unfold(end.spec_year(), end.spec_month(), end.spec_day(), start@, k);
        }
        let mut current = add_months(end, -months);
        let ghost mut prev = ymd(end);
        while start.is_before(&current)
            invariant
                months == k,
                1 <= k <= 12,
                bd == backward_dates(end.spec_year(), end.spec_month(), end.spec_day(), start@, k),
                1 <= unadjusted.len(),
                unadjusted@[0] == end,
                backward_ok(prev.0, prev.1, prev.2, start@, k),
                ymd(current) == spec_add_months(prev.0, prev.1, prev.2, -k),
                ymd(unadjusted@.last()) == prev,
                bd == unadjusted@.subrange(1, unadjusted.len() as int).map_values(|d: Date| ymd(d))
                    + backward_dates(prev.0, prev.1, prev.2, start@, k),
                unadjusted.len() <= bd.len() + 1,
            decreases current.spec_year() * 12 + current.spec_month() + 200000,
        {
            proof {
                use_type_invariant(&current);
                lemma_backward_unfold(prev.0, prev.1, prev.2, start@, k);
                lemma_backward_unfold(current.spec_year(), current.spec_month(), current.spec_day(), start@, k);
            }
            let ghost old_un = unadjusted@;
            unadjusted.push(current);
            proof {
                assert(unadjusted@.subrange(1, unadjusted.len() as int).map_values(|d: Date| ymd(d))
                    =~= old_un.subrange(1, old_un.len() as int).map_values(|d: Date| ymd(d))
                    + seq![ymd(current)]);
                prev = ymd(current);
            }
            current = add_months(current, -months);
        }
        proof {
            lemma_backward_unfold(prev.0, prev.1, prev.2, start@, k);
            assert(unadjusted@.subrange(1, unadjusted.len() as int).map_values(|d: Date| ymd(d)) =~= bd);
        }
        let n = unadjusted.len();
        let mut dates: Vec<Date> = Vec::new();
        dates.push(start);
        let mut j = n - 1;
        while j >= 1
            invariant
                1 <= n == unadjusted.len(),
                unadjusted@[0] == end,
                n == bd.len() + 1,
                0 <= j < n,
                bd == unadjusted@.subrange(1, n as int).map_values(|d: Date| ymd(d)),
                forall|i: int| 0 <= i < bd.len() ==> apply_in_range(*rule, #[trigger] triple_day(bd[i])),
                rule_sorted(*rule),
                dates.len() == n - j,
                dates@[0] == start,
                forall|i: int|
                    1 <= i < dates.len() ==> (#[trigger] dates@[i])@ == spec_apply(
                        *rule,
                        triple_day(bd[bd.len() - i]),
                    ),
            decreases j,
        {
            proof {
                assert(triple_day(bd[j - 1]) == unadjusted@[j as int]@);
            }
            let adjusted = rule.apply(unadjusted[j]);
            dates.push(adjusted);
            j = j - 1;
        }
        dates.push(end);
        CashFlowSchedule { dates }
    }

    /// A simple schedule: just start and end.
    pub fn bullet(start: Date, end: Date) -> (r: CashFlowSchedule)
        ensures
            r.dates@ == seq![start, end],
    {
        let mut dates = Vec::new();
        dates.push(start);
        dates.push(end);
        CashFlowSchedule { dates }
    }

    /// The accrual periods: pairs of consecutive dates.
    pub fn periods(&self) -> (r: Vec<(Date, Date)>)
        ensures
            r.len() == if self.dates.len() == 0 { 0 } else { self.dates.len() - 1 },
            forall|i: int|
                0 <= i < r.len() ==> #[trigger] r@[i] == (self.dates@[i], self.dates@[i + 1]),
    {
        let mut out: Vec<(Date, Date)> = Vec::new();
        let mut i: usize = 1;
        while i < self.dates.len()
            invariant
                1 <= i,
                self.dates.len() == 0 ==> out.len() == 0,
                self.dates.len() > 0 ==> i <= self.dates.len() && out.len() == i - 1,
                forall|t: int|
                    0 <= t < out.len() ==> #[trigger] out@[t] == (self.dates@[t], self.dates@[t + 1]),
            decreases self.dates.len() - i,
        {
            out.push((self.dates[i - 1], self.dates[i]));
            i = i + 1;
        }
        out
    }
}

} // verus!
