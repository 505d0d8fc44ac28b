//! The proleptic Gregorian calendar as mathematics: month lengths,
//! validity of a civil date, and the day number of a date (days since
//! 1970-01-01), with the facts that tie them together.

use vstd::arithmetic::div_mod::lemma_fundamental_div_mod;
use vstd::arithmetic::div_mod::lemma_fundamental_div_mod_converse;
use vstd::prelude::*;

verus! {

/// Whether `year` is a leap year in the proleptic Gregorian calendar.
pub open spec fn spec_is_leap_year(year: int) -> bool {
    (year % 4 == 0 && year % 100 != 0) || year % 400 == 0
}

/// Number of days in `month` of `year` (zero for a month outside 1..=12).
pub open spec fn spec_days_in_month(year: int, month: int) -> int {
    if month == 1 || month == 3 || month == 5 || month == 7 || month == 8 || month == 10
        || month == 12 {
        31
    } else if month == 4 || month == 6 || month == 9 || month == 11 {
        30
    } else if month == 2 {
        if spec_is_leap_year(year) {
            29
        } else {
            28
        }
    } else {
        0
    }
}

/// Smallest supported year (the range of `jiff::civil::Date`).
pub open spec fn min_year() -> int {
    -9999
}

/// Largest supported year.
pub open spec fn max_year() -> int {
    9999
}

/// A civil date that exists and lies in the supported range
/// -9999-01-01 ..= 9999-12-31.
pub open spec fn valid_ymd(year: int, month: int, day: int) -> bool {
    &&& min_year() <= year <= max_year()
    &&& 1 <= month <= 12
    &&& 1 <= day <= spec_days_in_month(year, month)
}

/// Days since 1970-01-01 of the civil date `year-month-day`
/// (floor division throughout; months are counted from March so that
/// the leap day closes the computational year).
pub open spec fn day_number(year: int, month: int, day: int) -> int {
    let y = if month <= 2 { year - 1 } else { year };
    let m = if month > 2 { month - 3 } else { month + 9 };
    365 * y + y / 4 - y / 100 + y / 400 + (153 * m + 2) / 5 + day - 1 - 719468
}

/// Day number of -9999-01-01, the first supported date.
pub open spec fn min_day_number() -> int {
    -4371587
}

/// Day number of 9999-12-31, the last supported date.
pub open spec fn max_day_number() -> int {
    2932896
}

/// ISO weekday (1 = Monday .. 7 = Sunday) of the date with day number `n`
/// (1970-01-01 was a Thursday).
pub open spec fn weekday_of(n: int) -> int {
    (n + 3) % 7 + 1
}

/// Index of the month `month` of `year` counted from month 1 of year 0.
pub open spec fn month_index(year: int, month: int) -> int {
    year * 12 + month - 1
}

proof fn lemma_div_step(y: int, k: int)
    requires
        k > 0,
    ensures
        y / k - (y - 1) / k == (if y % k == 0 { 1int } else { 0int }),
{
    lemma_fundamental_div_mod(y, k);
    let q = y / k;
    let r = y % k;
    assert(0 <= r < k) by {
        vstd::arithmetic::div_mod::lemma_mod_bound(y, k);
    }
    assert(y == q * k + r) by (nonlinear_arith)
        requires
            y == k * q + r,
    ;
    if r == 0 {
        assert(y - 1 == (q - 1) * k + (k - 1)) by (nonlinear_arith)
            requires
                y == q * k + r,
                r == 0,
        ;
        lemma_fundamental_div_mod_converse(y - 1, k, q - 1, k - 1);
    } else {
        lemma_fundamental_div_mod_converse(y - 1, k, q, r - 1);
    }
}

proof fn lemma_leap_divisibility(y: int)
    ensures
        y % 400 == 0 ==> y % 100 == 0,
        y % 100 == 0 ==> y % 4 == 0,
{
    if y % 400 == 0 {
        lemma_fundamental_div_mod(y, 400);
        let q = y / 400;
        assert(y == (4 * q) * 100 + 0) by (nonlinear_arith)
            requires
                y == 400 * q + 0,
        ;
        lemma_fundamental_div_mod_converse(y, 100, 4 * q, 0);
    }
    if y % 100 == 0 {
        lemma_fundamental_div_mod(y, 100);
        let q = y / 100;
        assert(y == (25 * q) * 4 + 0) by (nonlinear_arith)
            requires
                y == 100 * q + 0,
        ;
        lemma_fundamental_div_mod_converse(y, 4, 25 * q, 0);
    }
}

/// The first day of the month after `year-month` follows the first day of
/// `year-month` by exactly the length of that month.
pub proof fn lemma_next_month_start(year: int, month: int)
    requires
        1 <= month <= 12,
    ensures
        month < 12 ==> day_number(year, month + 1, 1) == day_number(year, month, 1)
            + spec_days_in_month(year, month),
        month == 12 ==> day_number(year + 1, 1, 1) == day_number(year, 12, 1) + 31,
{
    if month == 2 {
        lemma_div_step(year, 4);
        lemma_div_step(year, 100);
        lemma_div_step(year, 400);
        lemma_leap_divisibility(year);
    }
}

/// Consecutive days of a month have consecutive day numbers, and the
/// last day of a month is followed by the first day of the next month.
pub proof fn lemma_day_number_succ(year: int, month: int, day: int)
    requires
        valid_ymd(year, month, day),
    ensures
        day < spec_days_in_month(year, month) ==> day_number(year, month, day + 1)
            == day_number(year, month, day) + 1,
        day == spec_days_in_month(year, month) && month < 12 ==> day_number(year, month + 1, 1)
            == day_number(year, month, day) + 1,
        day == spec_days_in_month(year, month) && month == 12 ==> day_number(year + 1, 1, 1)
            == day_number(year, month, day) + 1,
{
    lemma_next_month_start(year, month);
}

/// Day numbers of first days are strictly increasing in the month index.
proof fn lemma_month_starts_increase(y1: int, m1: int, y2: int, m2: int)
    requires
        1 <= m1 <= 12,
        1 <= m2 <= 12,
        month_index(y1, m1) < month_index(y2, m2),
    ensures
        day_number(y1, m1, 1) + spec_days_in_month(y1, m1) <= day_number(y2, m2, 1),
    decreases month_index(y2, m2) - month_index(y1, m1),
{
    lemma_next_month_start(y1, m1);
    let (ny, nm) = if m1 == 12 { (y1 + 1, 1int) } else { (y1, m1 + 1) };
    if month_index(ny, nm) < month_index(y2, m2) {
        lemma_month_starts_increase(ny, nm, y2, m2);
    } else {
        assert(ny == y2 && nm == m2);
    }
}

/// Chronological order of valid dates is the lexicographic order of
/// their (year, month, day) components, and the day number is a bijection.
pub proof fn lemma_day_number_order(y1: int, m1: int, d1: int, y2: int, m2: int, d2: int)
    requires
        valid_ymd(y1, m1, d1),
        valid_ymd(y2, m2, d2),
    ensures
        (y1 < y2 || (y1 == y2 && m1 < m2) || (y1 == y2 && m1 == m2 && d1 < d2)) <==> day_number(
            y1,
            m1,
            d1,
        ) < day_number(y2, m2, d2),
        (y1 == y2 && m1 == m2 && d1 == d2) <==> day_number(y1, m1, d1) == day_number(y2, m2, d2),
{
    if month_index(y1, m1) < month_index(y2, m2) {
        lemma_month_starts_increase(y1, m1, y2, m2);
    } else if month_index(y2, m2) < month_index(y1, m1) {
        lemma_month_starts_increase(y2, m2, y1, m1);
    } else {
        assert(y1 == y2 && m1 == m2) by {
            lemma_fundamental_div_mod_converse(month_index(y1, m1), 12, y1, m1 - 1);
            lemma_fundamental_div_mod_converse(month_index(y2, m2), 12, y2, m2 - 1);
        }
    }
}

/// Every valid date has a day number in the supported range.
pub proof fn lemma_day_number_range(y: int, m: int, d: int)
    requires
        valid_ymd(y, m, d),
    ensures
        min_day_number() <= day_number(y, m, d) <= max_day_number(),
{
    assert(valid_ymd(-9999, 1, 1));
    assert(valid_ymd(9999, 12, 31));
    lemma_day_number_order(-9999, 1, 1, y, m, d);
    lemma_day_number_order(y, m, d, 9999, 12, 31);
}

} // verus!

verus! {

/// Day number `n` belongs to a supported date.
pub open spec fn in_range(n: int) -> bool {
    min_day_number() <= n <= max_day_number()
}

} // verus!

verus! {

/// The month (1..=12) of the date with day number `n`.
pub open spec fn month_of_day(n: int) -> int {
    let (y, m, d) = choose|y: int, m: int, d: int| valid_ymd(y, m, d) && day_number(y, m, d) == n;
    m
}

} // verus!
