//! The shape every history file must have: some days, in strictly
//! ascending order.

use vstd::prelude::*;
use vstd::string::StringExecFns;

use crate::config::{date_string, day_text};
use crate::dates::instant::{jiff_rendered_timestamp, Timestamp};
use crate::dates::Date;
use crate::error::Error;

verus! {

/// The days at `i` and `i + 1` are out of order (equal or descending).
pub open spec fn descends_at(days: Seq<Date>, i: int) -> bool {
    days[i + 1]@ <= days[i]@
}

/// `r` is the outcome of checking `days`: an error naming the history
/// when it is empty, an error naming the first pair out of order, else
/// success.
pub open spec fn is_days_check(
    days: Seq<Date>,
    empty_message: Seq<char>,
    order_prefix: Seq<char>,
    r: crate::error::Result<()>,
) -> bool {
    if days.len() == 0 {
        r matches Err(Error::MarketData(m)) && m@ == empty_message
    } else if forall|i: int| 0 <= i < days.len() - 1 ==> !#[trigger] descends_at(days, i) {
        r is Ok
    } else {
        exists|i: int|
            0 <= i < days.len() - 1 && #[trigger] descends_at(days, i) && (forall|j: int|
                0 <= j < i ==> !#[trigger] descends_at(days, j)) && (r matches Err(
                Error::MarketData(m),
            ) && m@ == order_prefix + day_text(days[i]@) + " then "@ + day_text(days[i + 1]@))
    }
}

fn check_days(days: &[Date], empty_message: &str, order_prefix: &str) -> (r: crate::error::Result<()>)
    ensures
        is_days_check(days@, empty_message@, order_prefix@, r),
{
    proof {
        reveal_strlit(" then ");
    }
    if days.len() == 0 {
        return Err(Error::MarketData(String::from_str(empty_message)));
    }
    let mut i: usize = 0;
    while i + 1 < days.len()
        invariant
            i + 1 <= days@.len(),
            forall|j: int| 0 <= j < i ==> !#[trigger] descends_at(days@, j),
        decreases days.len() - i,
    {
        if !days[i].is_before(&days[i + 1]) {
            let m = String::from_str(order_prefix).concat(date_string(&days[i]).as_str()).concat(
                " then ",
            ).concat(date_string(&days[i + 1]).as_str());
            proof {
                assert(descends_at(days@, i as int));
            }
            return Err(Error::MarketData(m));
        }
        i = i + 1;
    }
    Ok(())
}

/// A market history has days, in strictly ascending order.
pub fn check_market_days(days: &[Date]) -> (r: crate::error::Result<()>)
    ensures
        is_days_check(
            days@,
            "market history has no days"@,
            "market history days not strictly ascending: "@,
            r,
        ),
{
    proof {
        reveal_strlit("market history has no days");
        reveal_strlit("market history days not strictly ascending: ");
    }
    check_days(days, "market history has no days", "market history days not strictly ascending: ")
}

/// A quote history has days, in strictly ascending order.
pub fn check_quote_days(days: &[Date]) -> (r: crate::error::Result<()>)
    ensures
        is_days_check(days@, "quote history has no days"@, "quote days not strictly ascending: "@, r),
{
    proof {
        reveal_strlit("quote history has no days");
        reveal_strlit("quote days not strictly ascending: ");
    }
    check_days(days, "quote history has no days", "quote days not strictly ascending: ")
}

/// The first index of `days` holding the day numbered `n`.
pub open spec fn first_index(days: Seq<Date>, n: int) -> Option<int>
    decreases days.len(),
{
    if days.len() == 0 {
        None
    } else {
        match first_index(days.drop_last(), n) {
            Some(i) => Some(i),
            None => if days.last()@ == n {
                Some(days.len() - 1)
            } else {
                None
            },
        }
    }
}

/// Position of the first record of `days` for `date`, if any.
pub fn find_day(days: &[Date], date: Date) -> (r: Option<usize>)
    ensures
        r matches Some(i) ==> first_index(days@, date@) == Some(i as int),
        r is None ==> first_index(days@, date@) is None,
{
    let mut i: usize = 0;
    while i < days.len()
        invariant
            i <= days@.len(),
            first_index(days@.take(i as int), date@) is None,
        decreases days.len() - i,
    {
        proof {
            assert(days@.take(i + 1).drop_last() =~= days@.take(i as int));
            assert(days@.take(i + 1).last() == days@[i as int]);
        }
        if days[i].same_day(&date) {
            proof {
                lemma_first_index_prefix(days@, i + 1, date@);
            }
            return Some(i);
        }
        i = i + 1;
    }
    proof {
        assert(days@.take(days@.len() as int) =~= days@);
    }
    None
}

/// A first occurrence in a prefix is the first occurrence overall.
proof fn lemma_first_index_prefix(days: Seq<Date>, k: int, n: int)
    requires
        0 <= k <= days.len(),
        first_index(days.take(k), n) is Some,
    ensures
        first_index(days, n) == first_index(days.take(k), n),
    decreases days.len() - k,
{
    if k < days.len() {
        assert(days.take(k + 1).drop_last() =~= days.take(k));
        lemma_first_index_prefix(days, k + 1, n);
    } else {
        assert(days.take(k) =~= days);
    }
}

/// The span a history covers, as text: `first..last`, or `nothing`.
pub open spec fn span_label(days: Seq<Date>) -> Seq<char> {
    if days.len() == 0 {
        "nothing"@
    } else {
        day_text(days[0]@) + ".."@ + day_text(days.last()@)
    }
}

/// The span a history covers, as text.
pub fn history_span(days: &[Date]) -> (r: String)
    ensures
        r@ == span_label(days@),
{
    proof {
        reveal_strlit("nothing");
        reveal_strlit("..");
    }
    if days.len() == 0 {
        String::from_str("nothing")
    } else {
        date_string(&days[0]).concat("..").concat(date_string(&days[days.len() - 1]).as_str())
    }
}

/// The error for a day the history has no record of.
pub fn missing_day(days: &[Date], date: Date) -> (r: Error)
    ensures
        r matches Error::MarketData(m) && m@ == "no market data for "@ + day_text(date@)
            + " (history covers "@ + span_label(days@) + ")"@,
{
    proof {
        reveal_strlit("no market data for ");
        reveal_strlit(" (history covers ");
        reveal_strlit(")");
    }
    Error::MarketData(
        String::from_str("no market data for ").concat(date_string(&date).as_str()).concat(
            " (history covers ",
        ).concat(history_span(days).as_str()).concat(")"),
    )
}

/// The error for a vol data day with no market day to merge into.
pub fn unmatched_vol_day(days: &[Date], date: Date) -> (r: Error)
    ensures
        r matches Error::MarketData(m) && m@ == "vol data day "@ + day_text(date@)
            + " has no matching market day (history covers "@ + span_label(days@) + ")"@,
{
    proof {
        reveal_strlit("vol data day ");
        reveal_strlit(" has no matching market day (history covers ");
        reveal_strlit(")");
    }
    Error::MarketData(
        String::from_str("vol data day ").concat(date_string(&date).as_str()).concat(
            " has no matching market day (history covers ",
        ).concat(history_span(days).as_str()).concat(")"),
    )
}

/// The record a run values: with a history, the day `as_of` names (an
/// error naming the span when the history has no record of it) or the
/// last day (an error when there is none); without a history, nothing,
/// and asking for a day is an error.
pub fn valuation_day(days: Option<&[Date]>, as_of: Option<Date>) -> (r: crate::error::Result<Option<usize>>)
    ensures
        days is None ==> (as_of is None ==> r == Ok::<Option<usize>, Error>(None)),
        days is None ==> (as_of matches Some(d) ==> (r matches Err(Error::Config(m)) && m@ == "--as-of "@
            + day_text(d@) + " without a market file"@)),
        days matches Some(ds) ==> (as_of matches Some(d) ==> match first_index(ds@, d@) {
            Some(i) => r matches Ok(Some(j)) && j == i,
            None => r matches Err(Error::MarketData(m)) && m@ == "no market data for "@ + day_text(d@)
                + " (history covers "@ + span_label(ds@) + ")"@,
        }),
        days matches Some(ds) ==> (as_of is None ==> if ds@.len() == 0 {
            r matches Err(Error::MarketData(m)) && m@ == "market history has no days"@
        } else {
            r matches Ok(Some(j)) && j == ds@.len() - 1
        }),
{
    proof {
        reveal_strlit("--as-of ");
        reveal_strlit(" without a market file");
        reveal_strlit("market history has no days");
    }
    match days {
        None => match as_of {
            None => Ok(None),
            Some(d) => Err(
                Error::Config(
                    String::from_str("--as-of ").concat(date_string(&d).as_str()).concat(
                        " without a market file",
                    ),
                ),
            ),
        },
        Some(ds) => match as_of {
            Some(d) => match find_day(ds, d) {
                Some(i) => Ok(Some(i)),
                None => Err(missing_day(ds, d)),
            },
            None => {
                if ds.len() == 0 {
                    Err(Error::MarketData(String::from_str("market history has no days")))
                } else {
                    Ok(Some(ds.len() - 1))
                }
            },
        },
    }
}

/// What merging reads of a day record: its date and instant, and the ids
/// of its market prices, settlement prices, discount curves and vol
/// surfaces.
pub struct DayKeys {
    pub valuation_date: Date,
    pub as_of: Timestamp,
    pub market_prices: Vec<String>,
    pub settlement_prices: Vec<String>,
    pub discount_curves: Vec<String>,
    pub vol_surfaces: Vec<String>,
}

/// The first id of `incoming` that `existing` already has.
pub open spec fn first_clash(existing: Seq<String>, incoming: Seq<String>) -> Option<int>
    decreases incoming.len(),
{
    if incoming.len() == 0 {
        None
    } else {
        match first_clash(existing, incoming.drop_last()) {
            Some(i) => Some(i),
            None => if exists|k: int| 0 <= k < existing.len() && #[trigger] existing[k]@ == incoming.last()@ {
                Some(incoming.len() - 1)
            } else {
                None
            },
        }
    }
}

fn clash(existing: &[String], incoming: &[String]) -> (r: Option<usize>)
    ensures
        r matches Some(i) ==> first_clash(existing@, incoming@) == Some(i as int) && i < incoming@.len(),
        r is None ==> first_clash(existing@, incoming@) is None,
{
    let mut i: usize = 0;
    while i < incoming.len()
        invariant
            i <= incoming@.len(),
            first_clash(existing@, incoming@.take(i as int)) is None,
        decreases incoming.len() - i,
    {
        proof {
            assert(incoming@.take(i + 1).drop_last() =~= incoming@.take(i as int));
            assert(incoming@.take(i + 1).last() == incoming@[i as int]);
        }
        let mut k: usize = 0;
        let mut hit = false;
        while k < existing.len()
            invariant
                i < incoming@.len(),
                k <= existing@.len(),
                hit <==> exists|a: int| 0 <= a < k && #[trigger] existing@[a]@ == incoming@[i as int]@,
            decreases existing.len() - k,
        {
            if existing[k] == incoming[i] {
                hit = true;
            }
            k = k + 1;
        }
        if hit {
            proof {
                lemma_first_clash_prefix(existing@, incoming@, i + 1);
            }
            return Some(i);
        }
        i = i + 1;
    }
    proof {
        assert(incoming@.take(incoming@.len() as int) =~= incoming@);
    }
    None
}

proof fn lemma_first_clash_prefix(existing: Seq<String>, incoming: Seq<String>, k: int)
    requires
        0 <= k <= incoming.len(),
        first_clash(existing, incoming.take(k)) is Some,
    ensures
        first_clash(existing, incoming) == first_clash(existing, incoming.take(k)),
    decreases incoming.len() - k,
{
    if k < incoming.len() {
        assert(incoming.take(k + 1).drop_last() =~= incoming.take(k));
        lemma_first_clash_prefix(existing, incoming, k + 1);
    } else {
        assert(incoming.take(k) =~= incoming);
    }
}

/// The error of merging `incoming` into `existing` for the kind of record
/// `what`: the first id already present, if any.
pub open spec fn clash_error(what: Seq<char>, existing: Seq<String>, incoming: Seq<String>) -> Option<Seq<char>> {
    match first_clash(existing, incoming) {
        Some(i) => Some("duplicate "@ + what + " '"@ + incoming[i]@ + "'"@),
        None => None,
    }
}

fn check_clash(what: &str, existing: &[String], incoming: &[String]) -> (r: crate::error::Result<()>)
    ensures
        clash_error(what@, existing@, incoming@) is None ==> r is Ok,
        clash_error(what@, existing@, incoming@) matches Some(t) ==> (r matches Err(Error::MarketData(m))
            && m@ == t),
{
    proof {
        reveal_strlit("duplicate ");
        reveal_strlit(" '");
        reveal_strlit("'");
    }
    match clash(existing, incoming) {
        None => Ok(()),
        Some(i) => Err(
            Error::MarketData(
                String::from_str("duplicate ").concat(what).concat(" '").concat(incoming[i].as_str()).concat(
                    "'",
                ),
            ),
        ),
    }
}

/// Whether a day record `other` (vol data) may be merged into `target`:
/// the same date and instant, and no market price, settlement price,
/// discount curve or vol surface both have, checked in that order. The
/// error names the first problem.
pub fn check_merge(target: &DayKeys, other: &DayKeys) -> (r: crate::error::Result<()>)
    ensures
        !(target.valuation_date@ == other.valuation_date@ && target.as_of@ == other.as_of@) ==> (r matches Err(
            Error::MarketData(m),
        ) && m@ == "valuation_date/as_of mismatch: "@ + day_text(target.valuation_date@) + "/"@
            + jiff_rendered_timestamp(target.as_of.spec_second() as i64, target.as_of.spec_nanosecond() as i32)
            + " vs "@ + day_text(other.valuation_date@) + "/"@ + jiff_rendered_timestamp(
            other.as_of.spec_second() as i64,
            other.as_of.spec_nanosecond() as i32,
        )),
        target.valuation_date@ == other.valuation_date@ && target.as_of@ == other.as_of@ ==> match clash_error(
            "market price"@,
            target.market_prices@,
            other.market_prices@,
        ) {
            Some(t) => r matches Err(Error::MarketData(m)) && m@ == t,
            None => match clash_error("settlement price"@, target.settlement_prices@, other.settlement_prices@) {
                Some(t) => r matches Err(Error::MarketData(m)) && m@ == t,
                None => match clash_error("discount curve"@, target.discount_curves@, other.discount_curves@) {
                    Some(t) => r matches Err(Error::MarketData(m)) && m@ == t,
                    None => match clash_error("vol surface"@, target.vol_surfaces@, other.vol_surfaces@) {
                        Some(t) => r matches Err(Error::MarketData(m)) && m@ == t,
                        None => r is Ok,
                    },
                },
            },
        },
{
    proof {
        reveal_strlit("valuation_date/as_of mismatch: ");
        reveal_strlit("/");
        reveal_strlit(" vs ");
        reveal_strlit("market price");
        reveal_strlit("settlement price");
        reveal_strlit("discount curve");
        reveal_strlit("vol surface");
    }
    if !(target.valuation_date.same_day(&other.valuation_date) && !target.as_of.is_before(&other.as_of)
        && !other.as_of.is_before(&target.as_of)) {
        return Err(
            Error::MarketData(
                String::from_str("valuation_date/as_of mismatch: ").concat(
                    date_string(&target.valuation_date).as_str(),
                ).concat("/").concat(target.as_of.to_string().as_str()).concat(" vs ").concat(
                    date_string(&other.valuation_date).as_str(),
                ).concat("/").concat(other.as_of.to_string().as_str()),
            ),
        );
    }
    check_clash("market price", &target.market_prices, &other.market_prices)?;
    check_clash("settlement price", &target.settlement_prices, &other.settlement_prices)?;
    check_clash("discount curve", &target.discount_curves, &other.discount_curves)?;
    check_clash("vol surface", &target.vol_surfaces, &other.vol_surfaces)?;
    Ok(())
}

} // verus!
