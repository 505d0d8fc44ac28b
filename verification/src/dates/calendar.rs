//! Holiday calendars and business-day arithmetic.

use vstd::prelude::*;

use super::civil::{in_range, max_day_number, min_day_number, weekday_of};
use super::Date;

verus! {

/// Holiday calendar for business day calculations.
#[derive(Debug)]
pub enum Calendar {
    /// Every day is a business day (no holidays, no weekends).
    EveryDay,
    /// Weekdays only (Monday–Friday). No specific holidays.
    Weekday,
    /// Weekdays excluding a specific holiday list (kept sorted).
    WeekdayAndHoliday { name: String, holidays: Vec<Date> },
    /// Volatility calendar: weighs holidays differently for vol time.
    /// `holiday_weight` holds the IEEE-754 bit pattern of the weight.
    Volatility { name: String, calendar: Box<Calendar>, holiday_weight: u64 },
}

/// A copy of `cal` with the same name and the same non-business days.
fn copy_calendar(cal: &Calendar) -> (r: Calendar)
    ensures
        spec_name(r) == spec_name(*cal),
        forall|n: int| spec_is_holiday(r, n) == spec_is_holiday(*cal, n),
        sorted_calendar(r) == sorted_calendar(*cal),
        lists_fit(r) == lists_fit(*cal),
    decreases cal,
{
    match cal {
        Calendar::EveryDay => Calendar::EveryDay,
        Calendar::Weekday => Calendar::Weekday,
        Calendar::WeekdayAndHoliday { name, holidays } => {
            let h = holidays.clone();
            assert(h@ =~= holidays@);
            let r = Calendar::WeekdayAndHoliday { name: name.clone(), holidays: h };
            assert forall|n: int| spec_is_holiday(r, n) == spec_is_holiday(*cal, n) by {
                assert(lists_day(h@, n) == lists_day(holidays@, n));
            }
            r
        },
        Calendar::Volatility { name, calendar, holiday_weight } => {
            let inner: &Calendar = calendar;
            let c = copy_calendar(inner);
            let r = Calendar::Volatility {
                name: name.clone(),
                calendar: Box::new(c),
                holiday_weight: *holiday_weight,
            };
            assert forall|n: int| spec_is_holiday(r, n) == spec_is_holiday(*cal, n) by {
                assert(spec_is_holiday(c, n) == spec_is_holiday(*inner, n));
            }
            r
        },
    }
}

impl Clone for Calendar {
    /// A copy with the same name and the same non-business days.
    fn clone(&self) -> (r: Calendar)
        ensures
            spec_name(r) == spec_name(*self),
            forall|n: int| spec_is_holiday(r, n) == spec_is_holiday(*self, n),
            sorted_calendar(r) == sorted_calendar(*self),
            lists_fit(r) == lists_fit(*self),
    {
        copy_calendar(self)
    }
}

/// Some holiday in `holidays` falls on day number `n`.
pub open spec fn lists_day(holidays: Seq<Date>, n: int) -> bool {
    exists|i: int| 0 <= i < holidays.len() && #[trigger] holidays[i]@ == n
}

/// The dates of `s` are in non-decreasing chronological order.
pub open spec fn sorted_dates(s: Seq<Date>) -> bool {
    forall|i: int, j: int| 0 <= i <= j < s.len() ==> #[trigger] s[i]@ <= #[trigger] s[j]@
}

/// ISO weekday `n` is Saturday or Sunday.
pub open spec fn is_weekend(n: int) -> bool {
    weekday_of(n) == 6 || weekday_of(n) == 7
}

/// The calendar name shown to users.
pub open spec fn spec_name(cal: Calendar) -> Seq<char> {
    match cal {
        Calendar::EveryDay => "EveryDay"@,
        Calendar::Weekday => "Weekday"@,
        Calendar::WeekdayAndHoliday { name, .. } => name@,
        Calendar::Volatility { name, .. } => name@,
    }
}

/// Day number `n` is a non-business day under `cal`.
pub open spec fn spec_is_holiday(cal: Calendar, n: int) -> bool
    decreases cal,
{
    match cal {
        Calendar::EveryDay => false,
        Calendar::Weekday => is_weekend(n),
        Calendar::WeekdayAndHoliday { holidays, .. } => is_weekend(n) || lists_day(holidays@, n),
        Calendar::Volatility { calendar, .. } => spec_is_holiday(*calendar, n),
    }
}

/// Every holiday list inside `cal` is sorted.
pub open spec fn sorted_calendar(cal: Calendar) -> bool
    decreases cal,
{
    match cal {
        Calendar::WeekdayAndHoliday { holidays, .. } => sorted_dates(holidays@),
        Calendar::Volatility { calendar, .. } => sorted_calendar(*calendar),
        _ => true,
    }
}

/// Every holiday list inside `cal` has at most `i32::MAX` entries.
pub open spec fn lists_fit(cal: Calendar) -> bool
    decreases cal,
{
    match cal {
        Calendar::WeekdayAndHoliday { holidays, .. } => holidays.len() <= i32::MAX,
        Calendar::Volatility { calendar, .. } => lists_fit(*calendar),
        _ => true,
    }
}

/// The first business day reached from `n` moving one day at a time in the
/// given direction (leaving the supported range stops the search there).
pub open spec fn slip(cal: Calendar, n: int, forward: bool) -> int
    decreases (if forward {
        max_day_number() + 1 - n
    } else {
        n - min_day_number() + 1
    }),
{
    if !in_range(n) || !spec_is_holiday(cal, n) {
        n
    } else if forward {
        slip(cal, n + 1, forward)
    } else {
        slip(cal, n - 1, forward)
    }
}

/// The business day `k` business days after (`forward`) or before the
/// business day `n`.
pub open spec fn walk(cal: Calendar, n: int, k: nat, forward: bool) -> int
    decreases k,
{
    if k == 0 {
        n
    } else {
        let prev = walk(cal, n, (k - 1) as nat, forward);
        slip(cal, if forward { prev + 1 } else { prev - 1 }, forward)
    }
}

/// Result of `Calendar::step`: slip to a business day (forward or
/// backward), then move `step` business days (backward when negative).
pub open spec fn spec_step(cal: Calendar, from: int, step: int, slip_forward: bool) -> int {
    let start = slip(cal, from, slip_forward);
    if step >= 0 {
        walk(cal, start, step as nat, true)
    } else {
        walk(cal, start, (-step) as nat, false)
    }
}

/// `Calendar::step` stays inside the supported range of dates.
pub open spec fn step_in_range(cal: Calendar, from: int, step: int, slip_forward: bool) -> bool {
    &&& in_range(slip(cal, from, slip_forward))
    &&& in_range(spec_step(cal, from, step, slip_forward))
}

/// Number of Monday–Friday days in [a, b).
pub open spec fn count_weekdays_spec(a: int, b: int) -> int
    decreases b - a,
{
    if b <= a {
        0
    } else {
        count_weekdays_spec(a, b - 1) + if is_weekend(b - 1) {
            0int
        } else {
            1int
        }
    }
}

/// Number of entries of `holidays` that fall on a weekday in [a, b)
/// (an entry listed twice counts twice).
pub open spec fn count_listed_weekdays(holidays: Seq<Date>, a: int, b: int) -> int
    decreases holidays.len(),
{
    if holidays.len() == 0 {
        0
    } else {
        let h = holidays.last()@;
        count_listed_weekdays(holidays.drop_last(), a, b) + if a <= h < b && !is_weekend(h) {
            1int
        } else {
            0int
        }
    }
}

/// Result of `Calendar::count_business_days(from, to)`.
pub open spec fn spec_count_business_days(cal: Calendar, from: int, to: int) -> int
    decreases cal,
{
    if from == to {
        0
    } else {
        let (start, end, sign) = if from < to {
            (from, to, 1int)
        } else {
            (to, from, -1int)
        };
        match cal {
            Calendar::EveryDay => sign * (end - start),
            Calendar::Weekday => sign * count_weekdays_spec(start, end),
            Calendar::WeekdayAndHoliday { holidays, .. } => sign * (count_weekdays_spec(start, end)
                - count_listed_weekdays(holidays@, start, end)),
            Calendar::Volatility { calendar, .. } => spec_count_business_days(*calendar, from, to),
        }
    }
}

proof fn lemma_slip_facts(cal: Calendar, n: int, forward: bool)
    ensures
        forward ==> slip(cal, n, forward) >= n,
        !forward ==> slip(cal, n, forward) <= n,
        forward && n > max_day_number() ==> slip(cal, n, forward) == n,
        !forward && n < min_day_number() ==> slip(cal, n, forward) == n,
        in_range(slip(cal, n, forward)) ==> !spec_is_holiday(cal, slip(cal, n, forward)),
    decreases (if forward {
        max_day_number() + 1 - n
    } else {
        n - min_day_number() + 1
    }),
{
    if in_range(n) && spec_is_holiday(cal, n) {
        if forward {
            lemma_slip_facts(cal, n + 1, forward);
        } else {
            lemma_slip_facts(cal, n - 1, forward);
        }
    }
}

proof fn lemma_walk_monotone(cal: Calendar, n: int, i: nat, j: nat, forward: bool)
    requires
        i <= j,
    ensures
        forward ==> walk(cal, n, i, forward) <= walk(cal, n, j, forward),
        !forward ==> walk(cal, n, i, forward) >= walk(cal, n, j, forward),
        i < j && forward ==> walk(cal, n, i, forward) + 1 <= walk(cal, n, j, forward),
        i < j && !forward ==> walk(cal, n, i, forward) - 1 >= walk(cal, n, j, forward),
    decreases j,
{
    if i < j {
        let prev = walk(cal, n, (j - 1) as nat, forward);
        lemma_walk_monotone(cal, n, i, (j - 1) as nat, forward);
        lemma_slip_facts(cal, if forward { prev + 1 } else { prev - 1 }, forward);
    }
}

/// The number of weekdays in a run of seven consecutive days is five.
proof fn lemma_week_has_five_weekdays(a: int)
    ensures
        count_weekdays_spec(a, a + 7) == 5,
{
    reveal_with_fuel(count_weekdays_spec, 8);
    assert(weekday_of(a) == (a + 3) % 7 + 1);
}


proof fn lemma_weekend_periodic(n: int)
    ensures
        is_weekend(n + 7) == is_weekend(n),
{
    vstd::arithmetic::div_mod::lemma_mod_multiples_vanish(1, n + 3, 7);
    assert(n + 7 + 3 == 7 * 1 + (n + 3));
}

proof fn lemma_count_weekdays_bounds(a: int, b: int)
    ensures
        a <= b ==> 0 <= count_weekdays_spec(a, b) <= b - a,
        b <= a ==> count_weekdays_spec(a, b) == 0,
    decreases b - a,
{
    if b > a {
        lemma_count_weekdays_bounds(a, b - 1);
    }
}

proof fn lemma_count_weekdays_additive(a: int, b: int, c: int)
    requires
        a <= b <= c,
    ensures
        count_weekdays_spec(a, c) == count_weekdays_spec(a, b) + count_weekdays_spec(b, c),
    decreases c - b,
{
    if c > b {
        lemma_count_weekdays_additive(a, b, c - 1);
    }
}

proof fn lemma_count_weekdays_periodic(a: int, b: int)
    ensures
        count_weekdays_spec(a + 7, b + 7) == count_weekdays_spec(a, b),
    decreases b - a,
{
    if b > a {
        lemma_count_weekdays_periodic(a, b - 1);
        lemma_weekend_periodic(b - 1);
    }
}

proof fn lemma_count_weekdays_shift(a: int, b: int, q: nat)
    ensures
        count_weekdays_spec(a + 7 * q, b + 7 * q) == count_weekdays_spec(a, b),
    decreases q,
{
    if q > 0 {
        lemma_count_weekdays_shift(a, b, (q - 1) as nat);
        lemma_count_weekdays_periodic(a + 7 * (q - 1), b + 7 * (q - 1));
    }
}

proof fn lemma_count_weekdays_full_weeks(a: int, q: nat)
    ensures
        count_weekdays_spec(a, a + 7 * q) == 5 * q,
    decreases q,
{
    if q > 0 {
        lemma_count_weekdays_full_weeks(a, (q - 1) as nat);
        lemma_count_weekdays_additive(a, a + 7 * (q - 1), a + 7 * q);
        lemma_week_has_five_weekdays(a + 7 * (q - 1));
    }
}

proof fn lemma_count_listed_bounds(holidays: Seq<Date>, a: int, b: int)
    ensures
        0 <= count_listed_weekdays(holidays, a, b) <= holidays.len(),
    decreases holidays.len(),
{
    if holidays.len() > 0 {
        lemma_count_listed_bounds(holidays.drop_last(), a, b);
    }
}

proof fn lemma_count_business_days_bounds(cal: Calendar, from: int, to: int)
    requires
        lists_fit(cal),
        in_range(from),
        in_range(to),
    ensures
        -i32::MAX <= spec_count_business_days(cal, from, to) <= i32::MAX,
    decreases cal,
{
    let (start, end) = if from < to {
        (from, to)
    } else {
        (to, from)
    };
    lemma_count_weekdays_bounds(start, end);
    match cal {
        Calendar::WeekdayAndHoliday { holidays, .. } => {
            lemma_count_listed_bounds(holidays@, start, end);
        },
        Calendar::Volatility { calendar, .. } => {
            lemma_count_business_days_bounds(*calendar, from, to);
        },
        _ => {},
    }
}

impl Calendar {
    /// Calendar name.
    pub fn name(&self) -> (r: &str)
        ensures
            r@ == spec_name(*self),
    {
        match self {
            Calendar::EveryDay => "EveryDay",
            Calendar::Weekday => "Weekday",
            Calendar::WeekdayAndHoliday { name, .. } => name.as_str(),
            Calendar::Volatility { name, .. } => name.as_str(),
        }
    }

    /// True if the given date is a holiday (non-business day) under this
    /// calendar. Holiday lists are searched by bisection, which is exact
    /// when they are sorted.
    pub fn is_holiday(&self, date: Date) -> (r: bool)
        ensures
            r ==> spec_is_holiday(*self, date@),
            sorted_calendar(*self) ==> (r == spec_is_holiday(*self, date@)),
        decreases self,
    {
        match self {
            Calendar::EveryDay => false,
            Calendar::Weekday => {
                let wd = date.weekday();
                wd == 6 || wd == 7
            },
            Calendar::WeekdayAndHoliday { holidays, .. } => {
                let wd = date.weekday();
                if wd == 6 || wd == 7 {
                    return true;
                }
                search_sorted(holidays, &date)
            },
            Calendar::Volatility { calendar, .. } => calendar.is_holiday(date),
        }
    }

    /// Count business days between `from` and `to` (inclusive of `from`,
    /// exclusive of `to`); negative if `to < from`.
    pub fn count_business_days(&self, from: Date, to: Date) -> (r: i32)
        requires
            lists_fit(*self),
        ensures
            r == spec_count_business_days(*self, from@, to@),
        decreases self,
    {
        proof {
            use_type_invariant(&from);
            use_type_invariant(&to);
            Date::lemma_view_facts(from, to);
            lemma_count_business_days_bounds(*self, from@, to@);
        }
        if from.same_day(&to) {
            return 0;
        }
        let (start, end, sign) = if from.is_before(&to) {
            (from, to, 1i32)
        } else {
            (to, from, -1i32)
        };
        proof {
            lemma_count_weekdays_bounds(start@, end@);
        }
        match self {
            Calendar::EveryDay => sign * end.days_since(&start),
            Calendar::Weekday => sign * count_weekdays(start, end),
            Calendar::WeekdayAndHoliday { holidays, .. } => {
                let weekdays = count_weekdays(start, end);
                let holiday_count = count_listed(holidays, start, end);
                proof {
                    lemma_count_listed_bounds(holidays@, start@, end@);
                }
                sign * (weekdays - holiday_count)
            },
            Calendar::Volatility { calendar, .. } => {
                proof {
                    lemma_count_business_days_bounds(**calendar, from@, to@);
                }
                calendar.count_business_days(from, to)
            },
        }
    }

    /// Step forward or backward by `step` business days from `from`. When
    /// `from` is a holiday it first slips to the next business day
    /// (`slip_forward`) or to the previous one.
    pub fn step(&self, from: Date, step: i32, slip_forward: bool) -> (r: Date)
        requires
            sorted_calendar(*self),
            step_in_range(*self, from@, step as int, slip_forward),
        ensures
            r@ == spec_step(*self, from@, step as int, slip_forward),
            !spec_is_holiday(*self, r@),
    {
        let ghost start = slip(*self, from@, slip_forward);
        let dir: i32 = if slip_forward {
            1
        } else {
            -1
        };
        proof {
            lemma_slip_facts(*self, from@, slip_forward);
        }
        let mut current = from;
        while self.is_holiday(current)
            invariant
                sorted_calendar(*self),
                in_range(start),
                start == slip(*self, from@, slip_forward),
                slip(*self, current@, slip_forward) == start,
                dir == (if slip_forward { 1int } else { -1int }),
                in_range(current@),
            decreases (if slip_forward {
                max_day_number() + 1 - current@
            } else {
                current@ - min_day_number() + 1
            }),
        {
            proof {
                let next = current@ + dir;
                lemma_slip_facts(*self, next, slip_forward);
            }
            current = current.add_days(dir);
        }
        assert(current@ == start);
        let ghost forward = step >= 0;
        let ghost k: nat = if step >= 0 {
            step as nat
        } else {
            (-step) as nat
        };
        proof {
            lemma_slip_facts(*self, from@, slip_forward);
        }
        let mut i: i32 = 0;
        if step >= 0 {
            while i < step
                invariant
                    sorted_calendar(*self),
                    0 <= i <= step,
                    k == step,
                    current@ == walk(*self, start, i as nat, true),
                    in_range(start),
                    in_range(walk(*self, start, k, true)),
                decreases step - i,
            {
                proof {
                    lemma_walk_monotone(*self, start, i as nat, k, true);
                    lemma_walk_monotone(*self, start, 0, i as nat, true);
                    lemma_walk_monotone(*self, start, (i + 1) as nat, k, true);
                    lemma_slip_facts(*self, current@ + 1, true);
                }
                current = current.add_days(1);
                let ghost target = walk(*self, start, (i + 1) as nat, true);
                while self.is_holiday(current)
                    invariant
                        sorted_calendar(*self),
                        slip(*self, current@, true) == target,
                        in_range(target),
                        in_range(current@),
                    decreases max_day_number() + 1 - current@,
                {
                    proof {
                        lemma_slip_facts(*self, current@ + 1, true);
                    }
                    current = current.add_days(1);
                }
                i = i + 1;
            }
        } else {
            while i > step
                invariant
                    sorted_calendar(*self),
                    step <= i <= 0,
                    k == -step,
                    current@ == walk(*self, start, (-i) as nat, false),
                    in_range(start),
                    in_range(walk(*self, start, k, false)),
                decreases i - step,
            {
                proof {
                    lemma_walk_monotone(*self, start, (-i) as nat, k, false);
                    lemma_walk_monotone(*self, start, 0, (-i) as nat, false);
                    lemma_walk_monotone(*self, start, (-i + 1) as nat, k, false);
                    lemma_slip_facts(*self, current@ - 1, false);
                }
                current = current.sub_days(1);
                let ghost target = walk(*self, start, (-i + 1) as nat, false);
                while self.is_holiday(current)
                    invariant
                        sorted_calendar(*self),
                        slip(*self, current@, false) == target,
                        in_range(target),
                        in_range(current@),
                    decreases current@ - min_day_number() + 1,
                {
                    proof {
                        lemma_slip_facts(*self, current@ - 1, false);
                    }
                    current = current.sub_days(1);
                }
                i = i - 1;
            }
        }
        proof {
            if k > 0 {
                let prev = walk(*self, start, (k - 1) as nat, forward);
                lemma_slip_facts(*self, if forward { prev + 1 } else { prev - 1 }, forward);
            }
        }
        current
    }
}


/// Counting business days backwards gives the negated count: swapping
/// `from` and `to` negates `count_business_days`, for every calendar.
pub proof fn lemma_count_business_days_antisymmetric(cal: Calendar, from: int, to: int)
    ensures
        spec_count_business_days(cal, from, to) == -spec_count_business_days(cal, to, from),
    decreases cal,
{
    match cal {
        Calendar::Volatility { calendar, .. } => {
            lemma_count_business_days_antisymmetric(*calendar, from, to);
        },
        _ => {},
    }
}

/// Number of business days of `cal` in `[a, b)`: the days that are not
/// holidays under `cal`.
pub open spec fn business_days_between(cal: Calendar, a: int, b: int) -> int
    decreases b - a,
{
    if b <= a {
        0
    } else {
        business_days_between(cal, a, b - 1) + if spec_is_holiday(cal, b - 1) {
            0int
        } else {
            1int
        }
    }
}

/// No holiday list inside `cal` names a day twice.
pub open spec fn distinct_lists(cal: Calendar) -> bool
    decreases cal,
{
    match cal {
        Calendar::WeekdayAndHoliday { holidays, .. } => forall|i: int, j: int|
            0 <= i < j < holidays@.len() ==> #[trigger] holidays@[i]@ != #[trigger] holidays@[j]@,
        Calendar::Volatility { calendar, .. } => distinct_lists(*calendar),
        _ => true,
    }
}

/// How many entries of `holidays` fall on day number `n`.
spec fn listed_times(holidays: Seq<Date>, n: int) -> int
    decreases holidays.len(),
{
    if holidays.len() == 0 {
        0
    } else {
        listed_times(holidays.drop_last(), n) + if holidays.last()@ == n {
            1int
        } else {
            0int
        }
    }
}

/// Widening the range by one day adds the entries listed on that day, when
/// it is a weekday.
proof fn lemma_count_listed_step(holidays: Seq<Date>, a: int, b: int)
    ensures
        count_listed_weekdays(holidays, a, b + 1) == count_listed_weekdays(holidays, a, b) + if a <= b
            && !is_weekend(b) {
            listed_times(holidays, b)
        } else {
            0
        },
    decreases holidays.len(),
{
    if holidays.len() > 0 {
        lemma_count_listed_step(holidays.drop_last(), a, b);
    }
}

/// In a list without repeats a day is listed once or not at all.
proof fn lemma_listed_once(holidays: Seq<Date>, n: int)
    requires
        forall|i: int, j: int| 0 <= i < j < holidays.len() ==> #[trigger] holidays[i]@ != #[trigger] holidays[j]@,
    ensures
        listed_times(holidays, n) == if lists_day(holidays, n) {
            1int
        } else {
            0int
        },
    decreases holidays.len(),
{
    if holidays.len() > 0 {
        let rest = holidays.drop_last();
        assert forall|i: int, j: int| 0 <= i < j < rest.len() implies #[trigger] rest[i]@ != #[trigger] rest[j]@ by {
            assert(rest[i] == holidays[i] && rest[j] == holidays[j]);
        }
        lemma_listed_once(rest, n);
        let last = holidays.len() - 1;
        assert(holidays.last() == holidays[last]);
        if lists_day(rest, n) {
            let i = choose|i: int| 0 <= i < rest.len() && #[trigger] rest[i]@ == n;
            assert(holidays[i] == rest[i]);
        }
        if lists_day(holidays, n) && !lists_day(rest, n) {
            let i = choose|i: int| 0 <= i < holidays.len() && #[trigger] holidays[i]@ == n;
            if i < last {
                assert(rest[i] == holidays[i]);
            }
        }
    }
}

/// Two calendars with the same holidays count the same business days.
proof fn lemma_same_holidays_same_count(c1: Calendar, c2: Calendar, a: int, b: int)
    requires
        forall|n: int| spec_is_holiday(c1, n) == spec_is_holiday(c2, n),
    ensures
        business_days_between(c1, a, b) == business_days_between(c2, a, b),
    decreases b - a,
{
    if b > a {
        lemma_same_holidays_same_count(c1, c2, a, b - 1);
    }
}

/// Counting on the holiday lists: the weekdays of `[a, b)` less the listed
/// weekday holidays are the business days.
proof fn lemma_listed_count(cal: Calendar, holidays: Seq<Date>, a: int, b: int)
    requires
        a <= b,
        forall|n: int| spec_is_holiday(cal, n) == (is_weekend(n) || lists_day(holidays, n)),
        forall|i: int, j: int| 0 <= i < j < holidays.len() ==> #[trigger] holidays[i]@ != #[trigger] holidays[j]@,
    ensures
        count_weekdays_spec(a, b) - count_listed_weekdays(holidays, a, b) == business_days_between(cal, a, b),
    decreases b - a,
{
    if b > a {
        lemma_listed_count(cal, holidays, a, b - 1);
        lemma_count_listed_step(holidays, a, b - 1);
        lemma_listed_once(holidays, b - 1);
    } else {
        lemma_count_listed_zero(holidays, a);
    }
}

/// No listed holiday falls in an empty range.
proof fn lemma_count_listed_zero(holidays: Seq<Date>, a: int)
    ensures
        count_listed_weekdays(holidays, a, a) == 0,
    decreases holidays.len(),
{
    if holidays.len() > 0 {
        lemma_count_listed_zero(holidays.drop_last(), a);
    }
}

/// Counting weekdays is counting the business days of a calendar whose
/// holidays are the weekends.
proof fn lemma_weekday_count(cal: Calendar, a: int, b: int)
    requires
        a <= b,
        forall|n: int| spec_is_holiday(cal, n) == is_weekend(n),
    ensures
        count_weekdays_spec(a, b) == business_days_between(cal, a, b),
    decreases b - a,
{
    if b > a {
        lemma_weekday_count(cal, a, b - 1);
    }
}

/// Every day of `[a, b)` is a business day of a calendar without holidays.
proof fn lemma_every_day_count(cal: Calendar, a: int, b: int)
    requires
        a <= b,
        forall|n: int| !spec_is_holiday(cal, n),
    ensures
        b - a == business_days_between(cal, a, b),
    decreases b - a,
{
    if b > a {
        lemma_every_day_count(cal, a, b - 1);
    }
}

/// `count_business_days(from, to)` is the number of days of `[from, to)`
/// that are not holidays of the calendar (negated when `to` is before
/// `from`), for every calendar whose holiday lists name no day twice: a
/// listed holiday on a weekend is not taken off a second time.
pub proof fn lemma_count_business_days_counts_business_days(cal: Calendar, from: int, to: int)
    requires
        distinct_lists(cal),
    ensures
        from <= to ==> spec_count_business_days(cal, from, to) == business_days_between(cal, from, to),
        to < from ==> spec_count_business_days(cal, from, to) == -business_days_between(cal, to, from),
    decreases cal,
{
    let (start, end) = if from <= to {
        (from, to)
    } else {
        (to, from)
    };
    match cal {
        Calendar::EveryDay => {
            lemma_every_day_count(cal, start, end);
        },
        Calendar::Weekday => {
            lemma_weekday_count(cal, start, end);
        },
        Calendar::WeekdayAndHoliday { holidays, .. } => {
            lemma_listed_count(cal, holidays@, start, end);
        },
        Calendar::Volatility { calendar, .. } => {
            lemma_count_business_days_counts_business_days(*calendar, from, to);
            lemma_same_holidays_same_count(cal, *calendar, start, end);
        },
    }
}

/// Listing one more holiday that falls on a weekend changes no business-day
/// count: weekends are never business days already.
pub proof fn lemma_weekend_holiday_changes_no_count(c1: Calendar, c2: Calendar, w: Date, from: int, to: int)
    requires
        c1 is WeekdayAndHoliday,
        c2 is WeekdayAndHoliday,
        c2->holidays@ == c1->holidays@.push(w),
        is_weekend(w@),
    ensures
        spec_count_business_days(c2, from, to) == spec_count_business_days(c1, from, to),
{
    let h1 = c1->holidays@;
    let h2 = c2->holidays@;
    assert(h2.drop_last() =~= h1);
    assert(h2.last() == w);
}

/// Stepping lands on a business day: whenever the step stays inside the
/// supported range, its result is not a holiday of the calendar.
pub proof fn lemma_step_is_business_day(cal: Calendar, from: int, step: int, slip_forward: bool)
    requires
        step_in_range(cal, from, step, slip_forward),
    ensures
        !spec_is_holiday(cal, spec_step(cal, from, step, slip_forward)),
{
    let start = slip(cal, from, slip_forward);
    lemma_slip_facts(cal, from, slip_forward);
    let forward = step >= 0;
    let k: nat = if step >= 0 {
        step as nat
    } else {
        (-step) as nat
    };
    if k > 0 {
        let prev = walk(cal, start, (k - 1) as nat, forward);
        lemma_slip_facts(cal, if forward { prev + 1 } else { prev - 1 }, forward);
    }
}

/// A business day is its own adjustment: a zero step from a business day
/// (in either slip direction) stays on it.
pub proof fn lemma_zero_step_keeps_business_day(cal: Calendar, n: int, slip_forward: bool)
    requires
        in_range(n),
        !spec_is_holiday(cal, n),
    ensures
        spec_step(cal, n, 0, slip_forward) == n,
{
}

proof fn lemma_weekday_offset(n: int, i: int)
    requires
        0 <= i < 7,
    ensures
        (weekday_of(n) - 1 + i) % 7 + 1 == weekday_of(n + i),
{
    vstd::arithmetic::div_mod::lemma_add_mod_noop_right(i, n + 3, 7);
    assert((n + 3) % 7 + i == i + (n + 3) % 7);
    vstd::arithmetic::div_mod::lemma_add_mod_noop(n + 3, i, 7);
    vstd::arithmetic::div_mod::lemma_mod_twice(n + 3, 7);
    vstd::arithmetic::div_mod::lemma_small_mod(i as nat, 7);
}

/// Count weekdays (Mon–Fri) from `from` (inclusive) to `to` (exclusive).
fn count_weekdays(from: Date, to: Date) -> (r: i32)
    ensures
        r == count_weekdays_spec(from@, to@),
{
    proof {
        use_type_invariant(&from);
        use_type_invariant(&to);
        Date::lemma_view_facts(from, to);
    }
    let total_days = to.days_since(&from);
    if total_days <= 0 {
        proof {
            lemma_count_weekdays_bounds(from@, to@);
        }
        return 0;
    }
    let full_weeks = total_days / 7;
    let remaining = total_days % 7;
    let start_wd = from.weekday();
    let mut weekend_in_remainder: i32 = 0;
    let mut i: i32 = 0;
    while i < remaining
        invariant
            0 <= i <= remaining < 7,
            start_wd == weekday_of(from@),
            weekend_in_remainder == i - count_weekdays_spec(from@, from@ + i),
            0 <= weekend_in_remainder <= i,
        decreases remaining - i,
    {
        let wd = (start_wd - 1 + i as i8) % 7 + 1;
        proof {
            lemma_weekday_offset(from@, i as int);
            lemma_count_weekdays_bounds(from@, from@ + i);
        }
        if wd == 6 || wd == 7 {
            weekend_in_remainder += 1;
        }
        i = i + 1;
    }
    proof {
        let q = full_weeks as nat;
        let a = from@;
        assert(to@ == a + 7 * q + remaining);
        lemma_count_weekdays_full_weeks(a, q);
        lemma_count_weekdays_additive(a, a + 7 * q, to@);
        lemma_count_weekdays_shift(a, a + remaining, q);
    }
    full_weeks * 5 + (remaining - weekend_in_remainder)
}

/// Number of holidays in `holidays` on a weekday in [start, end).
fn count_listed(holidays: &Vec<Date>, start: Date, end: Date) -> (r: i32)
    requires
        holidays.len() <= i32::MAX,
    ensures
        r == count_listed_weekdays(holidays@, start@, end@),
{
    let mut count: i32 = 0;
    let mut i: usize = 0;
    let a = start.serial();
    let b = end.serial();
    while i < holidays.len()
        invariant
            i <= holidays.len() <= i32::MAX,
            a == start@,
            b == end@,
            count == count_listed_weekdays(holidays@.subrange(0, i as int), a as int, b as int),
            0 <= count <= i,
        decreases holidays.len() - i,
    {
        let h = holidays[i];
        let hs = h.serial();
        let wd = h.weekday();
        proof {
            assert(holidays@.subrange(0, i + 1).drop_last() =~= holidays@.subrange(0, i as int));
        }
        if a <= hs && hs < b && (1 <= wd && wd <= 5) {
            count = count + 1;
        }
        i = i + 1;
    }
    proof {
        assert(holidays@.subrange(0, holidays.len() as int) =~= holidays@);
    }
    count
}

/// Bisection search of `date` in `holidays`.
fn search_sorted(holidays: &Vec<Date>, date: &Date) -> (r: bool)
    ensures
        r ==> lists_day(holidays@, date@),
        sorted_dates(holidays@) ==> (r == lists_day(holidays@, date@)),
{
    let target = date.serial();
    let mut lo: usize = 0;
    let mut hi: usize = holidays.len();
    while lo < hi
        invariant
            lo <= hi <= holidays.len(),
            target == date@,
            sorted_dates(holidays@) ==> forall|i: int|
                0 <= i < lo ==> #[trigger] holidays@[i]@ < target,
            sorted_dates(holidays@) ==> forall|i: int|
                hi <= i < holidays.len() ==> #[trigger] holidays@[i]@ > target,
        decreases hi - lo,
    {
        let mid = lo + (hi - lo) / 2;
        let v = holidays[mid].serial();
        if v == target {
            return true;
        } else if v < target {
            lo = mid + 1;
        } else {
            hi = mid;
        }
    }
    false
}

} // verus!
