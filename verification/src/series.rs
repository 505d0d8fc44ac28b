//! The daily P&L trajectory of the book over a market history: on each
//! trading day, the book as it stood that day (the deals struck by then)
//! valued at that day's official marks.

use vstd::arithmetic::power::pow;
use vstd::prelude::*;
use vstd::string::StringExecFns;

use crate::config::deal_day;
use crate::decimal::{
    checked_difference, checked_sum, lemma_fits_at_two_places, numerator, sub_is_exact, units, zero_parts, Decimal,
    DecimalParts,
};
use crate::dates::Date;
use crate::error::Error;
use crate::generator::{earliest_day, earliest_deal_date};
use crate::instruments::Instrument;
use crate::portfolio::{
    deal_pnl, instrument_lookup, is_deal_valuation, pnl_defined, pnl_total, pnl_totals,
    pnl_ok, spec_contract_size, spec_realized, try_pnl_totals, valuate_at, MarkSource, ValuedDeal,
};
use crate::reports::{cents_text, date_text, refusal, refusal_message, source_tag, unpriced_count};
use crate::text::{dashes, nat_digits, nat_text, pad_left, pad_right, push_padded_left, push_padded_right, repeat_char};
use crate::trades::Deal;

verus! {

/// The official mark of a deal's instrument on some day, with its
/// provenance, or why there is none.
pub type Mark = crate::error::Result<(Decimal, MarkSource)>;

/// One trading day of a market history: its date and, for each deal of
/// the book in order, the official mark of the deal's instrument that day.
pub struct MarkedDay {
    pub date: Date,
    pub marks: Vec<Mark>,
}

/// A market history as the series report reads it: where it came from and
/// its trading days in order.
pub struct MarketSeries {
    pub source: Option<String>,
    pub days: Vec<MarkedDay>,
}

/// The deals of `deals` struck on or before the day numbered `day`, in
/// order, each with its mark (`marks[i]` belongs to `deals[i]`).
pub open spec fn active(deals: Seq<Deal>, marks: Seq<Mark>, day: int) -> (Seq<Deal>, Seq<Mark>)
    decreases deals.len(),
{
    if deals.len() == 0 {
        (Seq::empty(), Seq::empty())
    } else {
        let n = deals.len() - 1;
        let (ds, ms) = active(deals.drop_last(), marks.take(n), day);
        if deal_day(deals.last()) <= day {
            (ds.push(deals.last()), ms.push(marks[n]))
        } else {
            (ds, ms)
        }
    }
}

/// Realization and P&L of `deal` at `mark` on the day numbered `day`;
/// `None` when the deal cannot be priced (unknown instrument, no mark).
pub open spec fn priced_pnl(deal: Deal, instruments: Seq<Instrument>, day: int, mark: Mark) -> Option<
    (bool, DecimalParts),
> {
    match (instrument_lookup(instruments, deal.instrument_id@), mark) {
        (Some(inst), Ok((m, _))) => Some(
            (
                spec_realized(inst, day),
                deal_pnl(deal, m@, spec_contract_size(inst, instruments)).unwrap(),
            ),
        ),
        _ => None,
    }
}

/// Sum of the P&L of the priced deals whose realization is `realized`,
/// added in order from zero; `None` on overflow.
pub open spec fn marked_total(
    deals: Seq<Deal>,
    marks: Seq<Mark>,
    instruments: Seq<Instrument>,
    day: int,
    realized: bool,
) -> Option<DecimalParts>
    decreases deals.len(),
{
    if deals.len() == 0 {
        Some(zero_parts())
    } else {
        let n = deals.len() - 1;
        let prev = marked_total(deals.drop_last(), marks.take(n), instruments, day, realized);
        match priced_pnl(deals.last(), instruments, day, marks[n]) {
            Some((r, p)) => if r == realized {
                match prev {
                    Some(acc) => checked_sum(acc, p),
                    None => None,
                }
            } else {
                prev
            },
            None => prev,
        }
    }
}

/// Number of deals that cannot be priced.
pub open spec fn marked_unpriced(deals: Seq<Deal>, marks: Seq<Mark>, instruments: Seq<Instrument>) -> nat
    decreases deals.len(),
{
    if deals.len() == 0 {
        0
    } else {
        let n = deals.len() - 1;
        marked_unpriced(deals.drop_last(), marks.take(n), instruments) + if priced_pnl(
            deals.last(),
            instruments,
            0,
            marks[n],
        ) is None {
            1nat
        } else {
            0nat
        }
    }
}

/// The trading days of `days` from the day numbered `start` through the
/// day numbered `eval`, in order.
pub open spec fn window(days: Seq<MarkedDay>, start: int, eval: int) -> Seq<MarkedDay>
    decreases days.len(),
{
    if days.len() == 0 {
        Seq::empty()
    } else {
        let w = window(days.drop_last(), start, eval);
        let d = days.last();
        if start <= d.date@ <= eval {
            w.push(d)
        } else {
            w
        }
    }
}

/// The book as it stood on day `d`: the deals struck by then, with marks.
pub open spec fn book_on(deals: Seq<Deal>, d: MarkedDay) -> (Seq<Deal>, Seq<Mark>) {
    active(deals, d.marks@, d.date@)
}

/// Realized (`realized`) or unrealized P&L of the book on day `d`.
pub open spec fn day_pnl(deals: Seq<Deal>, instruments: Seq<Instrument>, d: MarkedDay, realized: bool) -> Option<
    DecimalParts,
> {
    let (ds, ms) = book_on(deals, d);
    marked_total(ds, ms, instruments, d.date@, realized)
}

/// Total P&L of the book on day `d`.
pub open spec fn day_total(deals: Seq<Deal>, instruments: Seq<Instrument>, d: MarkedDay) -> Option<
    DecimalParts,
> {
    match (day_pnl(deals, instruments, d, true), day_pnl(deals, instruments, d, false)) {
        (Some(r), Some(u)) => checked_sum(r, u),
        _ => None,
    }
}

/// The total of the last day of `w`, zero before the first day.
pub open spec fn prev_total(deals: Seq<Deal>, instruments: Seq<Instrument>, w: Seq<MarkedDay>) -> DecimalParts {
    if w.len() == 0 {
        zero_parts()
    } else {
        day_total(deals, instruments, w.last()).unwrap()
    }
}

/// Day `d` can be valued after a day with total `prev`: a mark for every
/// deal, and no valuation, sum or difference overflows a decimal.
pub open spec fn day_defined(
    deals: Seq<Deal>,
    instruments: Seq<Instrument>,
    d: MarkedDay,
    prev: DecimalParts,
) -> bool {
    let (ds, ms) = book_on(deals, d);
    &&& d.marks@.len() == deals.len()
    &&& forall|k: int| 0 <= k < ds.len() ==> pnl_defined(#[trigger] ds[k], instruments, ms[k])
    &&& day_total(deals, instruments, d) is Some
    &&& checked_difference(day_total(deals, instruments, d).unwrap(), prev) is Some
}

/// The day change of the last day of `w`, as its row shows it: its total
/// less the total of the day before.
pub open spec fn last_change(deals: Seq<Deal>, instruments: Seq<Instrument>, w: Seq<MarkedDay>) -> DecimalParts {
    checked_difference(
        day_total(deals, instruments, w.last()).unwrap(),
        prev_total(deals, instruments, w.drop_last()),
    ).unwrap()
}

/// Each day's change is the exact difference of the two totals wherever
/// that difference takes an exact path of decimal subtraction.
pub open spec fn changes_follow_totals(deals: Seq<Deal>, instruments: Seq<Instrument>, w: Seq<MarkedDay>) -> bool
    decreases w.len(),
{
    w.len() == 0 || (changes_follow_totals(deals, instruments, w.drop_last()) && (sub_is_exact(
        day_total(deals, instruments, w.last()).unwrap(),
        prev_total(deals, instruments, w.drop_last()),
    ) ==> units(last_change(deals, instruments, w)) == units(day_total(deals, instruments, w.last()).unwrap())
        - units(prev_total(deals, instruments, w.drop_last()))))
}

/// Every day's difference of totals takes an exact path of decimal
/// subtraction (no rounding).
pub open spec fn changes_exact(deals: Seq<Deal>, instruments: Seq<Instrument>, w: Seq<MarkedDay>) -> bool
    decreases w.len(),
{
    w.len() == 0 || (changes_exact(deals, instruments, w.drop_last()) && sub_is_exact(
        day_total(deals, instruments, w.last()).unwrap(),
        prev_total(deals, instruments, w.drop_last()),
    ))
}

/// The sum of the day changes over `w`, in units of `10^-28`.
pub open spec fn changes_units(deals: Seq<Deal>, instruments: Seq<Instrument>, w: Seq<MarkedDay>) -> int
    decreases w.len(),
{
    if w.len() == 0 {
        0
    } else {
        changes_units(deals, instruments, w.drop_last()) + units(last_change(deals, instruments, w))
    }
}

/// The day changes telescope: where every difference is exact, the
/// changes of the series add up to the total of its last day.
pub proof fn lemma_day_changes_telescope(deals: Seq<Deal>, instruments: Seq<Instrument>, w: Seq<MarkedDay>)
    requires
        changes_follow_totals(deals, instruments, w),
        changes_exact(deals, instruments, w),
    ensures
        changes_units(deals, instruments, w) == units(prev_total(deals, instruments, w)),
    decreases w.len(),
{
    if w.len() == 0 {
        assert(numerator(zero_parts()) == 0);
        assert(units(zero_parts()) == 0) by (nonlinear_arith)
            requires
                numerator(zero_parts()) == 0,
                units(zero_parts()) == numerator(zero_parts()) * pow(10, 28),
        ;
    } else {
        lemma_day_changes_telescope(deals, instruments, w.drop_last());
    }
}

/// Every day of `w` can be valued after the one before it.
pub open spec fn series_defined(deals: Seq<Deal>, instruments: Seq<Instrument>, w: Seq<MarkedDay>) -> bool
    decreases w.len(),
{
    w.len() == 0 || (series_defined(deals, instruments, w.drop_last()) && day_defined(
        deals,
        instruments,
        w.last(),
        prev_total(deals, instruments, w.drop_last()),
    ))
}

/// One row of the series: date, number of deals, realized, unrealized and
/// total P&L, and the change of the total from the day before.
pub open spec fn series_row(
    date: Date,
    n: nat,
    realized: DecimalParts,
    unrealized: DecimalParts,
    total: DecimalParts,
    change: DecimalParts,
) -> Seq<char> {
    pad_right(date_text(date), 10) + " "@ + pad_left(nat_digits(n), 5) + "  "@ + pad_left(
        cents_text(realized),
        11,
    ) + "  "@ + pad_left(cents_text(unrealized), 11) + "  "@ + pad_left(cents_text(total), 11)
        + "  "@ + pad_left(cents_text(change), 11) + "\n"@
}

/// The rows of the series over the days of `w`, in order.
pub open spec fn series_lines(deals: Seq<Deal>, instruments: Seq<Instrument>, w: Seq<MarkedDay>) -> Seq<
    char,
>
    decreases w.len(),
{
    if w.len() == 0 {
        Seq::empty()
    } else {
        let d = w.last();
        let t = day_total(deals, instruments, d).unwrap();
        series_lines(deals, instruments, w.drop_last()) + series_row(
            d.date,
            book_on(deals, d).0.len(),
            day_pnl(deals, instruments, d, true).unwrap(),
            day_pnl(deals, instruments, d, false).unwrap(),
            t,
            checked_difference(t, prev_total(deals, instruments, w.drop_last())).unwrap(),
        )
    }
}

/// Number of deals of the book on day `d` that cannot be priced.
pub open spec fn day_unpriced(deals: Seq<Deal>, instruments: Seq<Instrument>, d: MarkedDay) -> nat {
    let (ds, ms) = book_on(deals, d);
    marked_unpriced(ds, ms, instruments)
}

/// The warning for a day on which `n` deals could not be priced.
pub open spec fn warning_line(date: Date, n: nat) -> Seq<char> {
    "WARNING: "@ + date_text(date) + ": "@ + nat_digits(n)
        + " deal(s) unpriced and excluded from that day's totals\n"@
}

/// The warnings for the days of `w` on which deals could not be priced.
pub open spec fn series_warnings(deals: Seq<Deal>, instruments: Seq<Instrument>, w: Seq<MarkedDay>) -> Seq<
    char,
>
    decreases w.len(),
{
    if w.len() == 0 {
        Seq::empty()
    } else {
        let d = w.last();
        let n = day_unpriced(deals, instruments, d);
        series_warnings(deals, instruments, w.drop_last()) + if n > 0 {
            warning_line(d.date, n)
        } else {
            Seq::empty()
        }
    }
}

/// Column titles of the series.
pub open spec fn series_columns() -> Seq<char> {
    "Date       Deals     Realized   Unrealized        Total   Day change"@
}

/// The first and last day of a non-empty window.
pub open spec fn span_of(w: Seq<MarkedDay>) -> Seq<char> {
    if w.len() > 0 {
        ", "@ + date_text(w[0].date) + " \u{2192} "@ + date_text(w.last().date)
    } else {
        Seq::empty()
    }
}

/// The whole series report over the window `w` of a history from
/// `source`: title, columns, one row per trading day, then a warning for
/// each day with unpriced deals.
pub open spec fn series_report(
    deals: Seq<Deal>,
    instruments: Seq<Instrument>,
    source: Option<Seq<char>>,
    w: Seq<MarkedDay>,
) -> Seq<char> {
    "=== P&L series ("@ + nat_digits(w.len()) + " trading days, "@ + nat_digits(deals.len())
        + " deals"@ + span_of(w) + source_tag(source) + ") ===\n"@ + series_columns() + "\n"@
        + repeat_char('-', 66) + "\n"@ + series_lines(deals, instruments, w) + series_warnings(
        deals,
        instruments,
        w,
    ) + "\n"@
}

/// The valued deals of a day sum as their deals and marks do.
proof fn lemma_valued_totals(
    valued: Seq<ValuedDeal>,
    deals: Seq<Deal>,
    marks: Seq<Mark>,
    instruments: Seq<Instrument>,
    day: int,
)
    requires
        valued.len() == deals.len(),
        marks.len() == deals.len(),
        forall|k: int|
            0 <= k < deals.len() ==> is_deal_valuation(
                #[trigger] deals[k],
                instruments,
                day,
                marks[k],
                valued[k].valuation,
            ) && pnl_defined(deals[k], instruments, marks[k]),
    ensures
        pnl_total(valued, true) == marked_total(deals, marks, instruments, day, true),
        pnl_total(valued, false) == marked_total(deals, marks, instruments, day, false),
        unpriced_count(valued) == marked_unpriced(deals, marks, instruments),
    decreases deals.len(),
{
    if deals.len() > 0 {
        let n = deals.len() - 1;
        assert(deals.drop_last().len() == n);
        assert forall|k: int| 0 <= k < n implies is_deal_valuation(
            #[trigger] deals.drop_last()[k],
            instruments,
            day,
            marks.take(n)[k],
            valued.drop_last()[k].valuation,
        ) && pnl_defined(deals.drop_last()[k], instruments, marks.take(n)[k]) by {
            assert(deals.drop_last()[k] == deals[k]);
            assert(is_deal_valuation(deals[k], instruments, day, marks[k], valued[k].valuation));
        }
        lemma_valued_totals(valued.drop_last(), deals.drop_last(), marks.take(n), instruments, day);
        assert(is_deal_valuation(deals[n], instruments, day, marks[n], valued[n].valuation));
        assert(pnl_defined(deals[n], instruments, marks[n]));
    }
}

/// The day the series runs through: the valuation date when there is one,
/// else the last day of the history.
pub open spec fn series_eval(days: Seq<MarkedDay>, valuation_date: Option<Date>) -> Option<int> {
    match valuation_date {
        Some(d) => Some(d@),
        None => if days.len() > 0 {
            Some(days.last().date@)
        } else {
            None
        },
    }
}

/// The source of a history, as text.
pub open spec fn source_view(source: Option<String>) -> Option<Seq<char>> {
    match source {
        Some(s) => Some(s@),
        None => None,
    }
}

/// The window a series report covers, when it gets to valuing days: a
/// history, no integrity errors, some deal, and a day to run through.
pub open spec fn series_window(
    deals: Seq<Deal>,
    series: Option<MarketSeries>,
    valuation_date: Option<Date>,
    errors: Seq<String>,
) -> Option<Seq<MarkedDay>> {
    match series {
        Some(s) => if errors.len() == 0 && earliest_day(deals) is Some && series_eval(
            s.days@,
            valuation_date,
        ) is Some {
            Some(
                window(
                    s.days@,
                    earliest_day(deals).unwrap(),
                    series_eval(s.days@, valuation_date).unwrap(),
                ),
            )
        } else {
            None
        },
        None => None,
    }
}

/// `r` is what the series report gives: an error without a history, a
/// refusal over a book with integrity errors, a short title without
/// deals, an error for a history with no day to run through, else the
/// report over the window.
pub open spec fn is_series_result(
    deals: Seq<Deal>,
    instruments: Seq<Instrument>,
    series: Option<MarketSeries>,
    valuation_date: Option<Date>,
    errors: Seq<String>,
    r: crate::error::Result<String>,
) -> bool {
    match series {
        None => r matches Err(Error::Config(m)) && m@
            == "report 'pnl-series' requires market_series in the config"@,
        Some(s) => if errors.len() > 0 {
            r matches Err(Error::Config(m)) && m@ == refusal_message("pnl-series"@, errors)
        } else if earliest_day(deals) is None {
            r matches Ok(t) && t@ == "=== P&L series (no deals) ===\n"@
        } else if series_eval(s.days@, valuation_date) is None {
            r matches Err(Error::Config(m)) && m@ == "market series is empty"@
        } else {
            r matches Ok(t) && t@ == series_report(
                deals,
                instruments,
                source_view(s.source),
                series_window(deals, series, valuation_date, errors).unwrap(),
            )
        },
    }
}

/// The book of a day pairs each deal with one mark.
proof fn lemma_active_lengths(deals: Seq<Deal>, marks: Seq<Mark>, day: int)
    requires
        marks.len() >= deals.len(),
    ensures
        active(deals, marks, day).0.len() == active(deals, marks, day).1.len(),
    decreases deals.len(),
{
    if deals.len() > 0 {
        lemma_active_lengths(deals.drop_last(), marks.take(deals.len() - 1), day);
    }
}

/// A failure on a prefix of the days is a failure of the whole series.
proof fn lemma_series_prefix(deals: Seq<Deal>, instruments: Seq<Instrument>, w: Seq<MarkedDay>, i: int)
    requires
        0 <= i <= w.len(),
        series_defined(deals, instruments, w),
    ensures
        series_defined(deals, instruments, w.take(i)),
    decreases w.len() - i,
{
    if i == w.len() {
        assert(w.take(i) =~= w);
    } else {
        lemma_series_prefix(deals, instruments, w.drop_last(), i);
        assert(w.drop_last().take(i) =~= w.take(i));
    }
}

/// The trading days of `days` from `start` through `eval`.
fn take_window(days: Vec<MarkedDay>, start: Date, eval: Date) -> (r: Vec<MarkedDay>)
    ensures
        r@ == window(days@, start@, eval@),
{
    let ghost all = days@;
    let mut rest = days;
    let mut out: Vec<MarkedDay> = Vec::new();
    let n = rest.len();
    let mut i: usize = 0;
    proof {
        assert(all.take(0) =~= Seq::<MarkedDay>::empty());
        assert(all.skip(0) =~= all);
    }
    while i < n
        invariant
            n == all.len(),
            i <= n,
            rest@ == all.skip(i as int),
            out@ == window(all.take(i as int), start@, eval@),
        decreases n - i,
    {
        proof {
            assert(all.take(i + 1).drop_last() =~= all.take(i as int));
            assert(all.take(i + 1).last() == all[i as int]);
        }
        let d = rest.remove(0);
        proof {
            assert(d == all[i as int]);
            assert(rest@ =~= all.skip(i + 1));
        }
        if start.is_on_or_before(&d.date) && d.date.is_on_or_before(&eval) {
            out.push(d);
        }
        i = i + 1;
    }
    proof {
        assert(all.take(n as int) =~= all);
    }
    out
}

/// The book as it stood on `day`: the deals struck by then, with marks.
fn book_of(deals: &[Deal], marks: Vec<Mark>, day: Date) -> (r: (Vec<Deal>, Vec<Mark>))
    requires
        marks@.len() == deals@.len(),
    ensures
        (r.0@, r.1@) == active(deals@, marks@, day@),
{
    let ghost all = marks@;
    let mut rest = marks;
    let mut ds: Vec<Deal> = Vec::new();
    let mut ms: Vec<Mark> = Vec::new();
    let mut i: usize = 0;
    proof {
        assert(all.skip(0) =~= all);
        assert(deals@.take(0) =~= Seq::<Deal>::empty());
        assert(all.take(0) =~= Seq::<Mark>::empty());
    }
    while i < deals.len()
        invariant
            all.len() == deals@.len(),
            i <= deals@.len(),
            rest@ == all.skip(i as int),
            (ds@, ms@) == active(deals@.take(i as int), all.take(i as int), day@),
        decreases deals.len() - i,
    {
        proof {
            let t = deals@.take(i + 1);
            assert(t.drop_last() =~= deals@.take(i as int));
            assert(t.last() == deals@[i as int]);
            assert(all.take(i + 1).take(i as int) =~= all.take(i as int));
            assert(all.take(i + 1)[i as int] == all[i as int]);
            assert(t.len() == i + 1);
        }
        let m = rest.remove(0);
        proof {
            assert(m == all[i as int]);
            assert(rest@ =~= all.skip(i + 1));
        }
        if deals[i].timestamp.date().is_on_or_before(&day) {
            ds.push(deals[i].clone());
            ms.push(m);
        }
        i = i + 1;
    }
    proof {
        assert(deals@.take(deals@.len() as int) =~= deals@);
        assert(all.take(all.len() as int) =~= all);
    }
    (ds, ms)
}

/// Number of valued deals that could not be priced.
fn count_unpriced(valued: &Vec<ValuedDeal>) -> (r: u64)
    ensures
        r == unpriced_count(valued@),
{
    let mut n: u64 = 0;
    let mut i: usize = 0;
    while i < valued.len()
        invariant
            i <= valued@.len(),
            n == unpriced_count(valued@.take(i as int)),
            n <= i,
        decreases valued.len() - i,
    {
        proof {
            assert(valued@.take(i + 1).drop_last() =~= valued@.take(i as int));
            assert(valued@.take(i + 1).last() == valued@[i as int]);
        }
        if valued[i].valuation.is_err() {
            n = n + 1;
        }
        i = i + 1;
    }
    proof {
        assert(valued@.take(valued@.len() as int) =~= valued@);
    }
    n
}

/// Append a money amount right-aligned in `width` columns.
fn push_cents(out: &mut String, x: Decimal, width: usize)
    ensures
        final(out)@ == old(out)@ + pad_left(cents_text(x@), width as nat),
{
    let cents = x.round_dp(2);
    proof {
        use_type_invariant(&cents);
        lemma_fits_at_two_places(cents@, 2);
    }
    push_padded_left(out, cents.to_fixed_string(2).as_str(), width);
}

/// Append one row of the series.
fn push_series_row(
    out: &mut String,
    date: Date,
    n: usize,
    realized: Decimal,
    unrealized: Decimal,
    total: Decimal,
    change: Decimal,
)
    ensures
        final(out)@ == old(out)@ + series_row(date, n as nat, realized@, unrealized@, total@, change@),
{
    proof {
        reveal_strlit(" ");
        reveal_strlit("  ");
        reveal_strlit("\n");
    }
    let ghost start = out@;
    push_padded_right(out, date.to_string().as_str(), 10);
    out.append(" ");
    push_padded_left(out, nat_text(n as u64).as_str(), 5);
    out.append("  ");
    push_cents(out, realized, 11);
    out.append("  ");
    push_cents(out, unrealized, 11);
    out.append("  ");
    push_cents(out, total, 11);
    out.append("  ");
    push_cents(out, change, 11);
    out.append("\n");
    proof {
        assert(out@ =~= start + series_row(date, n as nat, realized@, unrealized@, total@, change@));
    }
}

/// The warnings for the listed (day, unpriced count) pairs, in order.
pub open spec fn warn_text(ws: Seq<(Date, u64)>) -> Seq<char>
    decreases ws.len(),
{
    if ws.len() == 0 {
        Seq::empty()
    } else {
        warn_text(ws.drop_last()) + warning_line(ws.last().0, ws.last().1 as nat)
    }
}

/// Append the warnings for the listed days.
fn push_warnings(out: &mut String, ws: &Vec<(Date, u64)>)
    ensures
        final(out)@ == old(out)@ + warn_text(ws@),
{
    proof {
        reveal_strlit("WARNING: ");
        reveal_strlit(": ");
        reveal_strlit(" deal(s) unpriced and excluded from that day's totals\n");
    }
    let ghost start = out@;
    let mut j: usize = 0;
    while j < ws.len()
        invariant
            j <= ws@.len(),
            out@ == start + warn_text(ws@.take(j as int)),
        decreases ws.len() - j,
    {
        proof {
            assert(ws@.take(j + 1).drop_last() =~= ws@.take(j as int));
            assert(ws@.take(j + 1).last() == ws@[j as int]);
        }
        let (date, n) = ws[j];
        out.append("WARNING: ");
        out.append(date.to_string().as_str());
        out.append(": ");
        out.append(nat_text(n).as_str());
        out.append(" deal(s) unpriced and excluded from that day's totals\n");
        proof {
            assert(out@ =~= start + warn_text(ws@.take(j + 1)));
        }
        j = j + 1;
    }
    proof {
        assert(ws@.take(ws@.len() as int) =~= ws@);
    }
}

/// Whether the series report would overflow a decimal while valuing its
/// days.
pub open spec fn series_overflows(
    deals: Seq<Deal>,
    instruments: Seq<Instrument>,
    series: Option<MarketSeries>,
    valuation_date: Option<Date>,
    errors: Seq<String>,
) -> bool {
    match series_window(deals, series, valuation_date, errors) {
        Some(w) => !series_defined(deals, instruments, w),
        None => false,
    }
}

/// The daily P&L trajectory of the book over `series`, or `None` when the
/// arithmetic overflows a decimal (see [`pnl_series`]).
pub fn try_pnl_series(
    deals: &[Deal],
    instruments: &[Instrument],
    series: Option<MarketSeries>,
    valuation_date: Option<Date>,
    integrity_errors: &[String],
) -> (r: Option<crate::error::Result<String>>)
    ensures
        r is None <==> series_overflows(deals@, instruments@, series, valuation_date, integrity_errors@),
        r matches Some(x) ==> is_series_result(
            deals@,
            instruments@,
            series,
            valuation_date,
            integrity_errors@,
            x,
        ),
        r is Some ==> (series_window(deals@, series, valuation_date, integrity_errors@) matches Some(w)
            ==> changes_follow_totals(deals@, instruments@, w)),
{
    proof {
        reveal_strlit("report 'pnl-series' requires market_series in the config");
        reveal_strlit("pnl-series");
        reveal_strlit("=== P&L series (no deals) ===\n");
        reveal_strlit("market series is empty");
        reveal_strlit("=== P&L series (");
        reveal_strlit(" trading days, ");
        reveal_strlit(" deals");
        reveal_strlit(", ");
        reveal_strlit(" \u{2192} ");
        reveal_strlit(" [");
        reveal_strlit("]");
        reveal_strlit(") ===\n");
        reveal_strlit("Date       Deals     Realized   Unrealized        Total   Day change");
        reveal_strlit("\n");
    }
    let ghost whole = series;
    let s = match series {
        None => {
            return Some(
                Err(
                    Error::Config(
                        String::from_str("report 'pnl-series' requires market_series in the config"),
                    ),
                ),
            );
        },
        Some(s) => s,
    };
    if integrity_errors.len() > 0 {
        return Some(Err(refusal("pnl-series", integrity_errors)));
    }
    let start = match earliest_deal_date(deals) {
        None => {
            return Some(Ok(String::from_str("=== P&L series (no deals) ===\n")));
        },
        Some(d) => d,
    };
    let ghost all_days = s.days@;
    let ghost source_text = source_view(s.source);
    let MarketSeries { source, days } = s;
    let eval = match valuation_date {
        Some(d) => d,
        None => {
            if days.len() == 0 {
                return Some(Err(Error::Config(String::from_str("market series is empty"))));
            }
            days[days.len() - 1].date
        },
    };
    proof {
        assert(series_eval(all_days, valuation_date) == Some(eval@));
    }
    let w = take_window(days, start, eval);
    let ghost wall = w@;
    proof {
        assert(series_window(deals@, whole, valuation_date, integrity_errors@) == Some(wall));
    }
    let mut out = String::from_str("=== P&L series (");
    out.append(nat_text(w.len() as u64).as_str());
    out.append(" trading days, ");
    out.append(nat_text(deals.len() as u64).as_str());
    out.append(" deals");
    if w.len() > 0 {
        out.append(", ");
        out.append(w[0].date.to_string().as_str());
        out.append(" \u{2192} ");
        out.append(w[w.len() - 1].date.to_string().as_str());
    }
    match &source {
        Some(src) => {
            out.append(" [");
            out.append(src.as_str());
            out.append("]");
        },
        None => {},
    }
    out.append(") ===\n");
    out.append("Date       Deals     Realized   Unrealized        Total   Day change");
    out.append("\n");
    out.append(dashes(66).as_str());
    out.append("\n");
    let ghost head = out@;
    proof {
        assert(head =~= "=== P&L series ("@ + nat_digits(wall.len()) + " trading days, "@ + nat_digits(
            deals@.len(),
        ) + " deals"@ + span_of(wall) + source_tag(source_text) + ") ===\n"@ + series_columns()
            + "\n"@ + repeat_char('-', 66) + "\n"@);
        assert(wall.take(0) =~= Seq::<MarkedDay>::empty());
        assert(wall.skip(0) =~= wall);
    }
    let mut prev = Decimal::zero();
    let mut warned: Vec<(Date, u64)> = Vec::new();
    let mut rest = w;
    let n = rest.len();
    let mut i: usize = 0;
    while i < n
        invariant
            n == wall.len(),
            i <= n,
            rest@ == wall.skip(i as int),
            out@ == head + series_lines(deals@, instruments@, wall.take(i as int)),
            prev@ == prev_total(deals@, instruments@, wall.take(i as int)),
            series_defined(deals@, instruments@, wall.take(i as int)),
            changes_follow_totals(deals@, instruments@, wall.take(i as int)),
            warn_text(warned@) == series_warnings(deals@, instruments@, wall.take(i as int)),
            series_window(deals@, whole, valuation_date, integrity_errors@) == Some(wall),
            whole == series,
        decreases n - i,
    {
        let ghost pre = wall.take(i as int);
        let ghost next = wall.take(i + 1);
        proof {
            assert(next.drop_last() =~= pre);
            assert(next.last() == wall[i as int]);
        }
        let day = rest.remove(0);
        proof {
            assert(day == wall[i as int]);
            assert(rest@ =~= wall.skip(i + 1));
        }
        let ghost defined_before = series_defined(deals@, instruments@, pre);
        if day.marks.len() != deals.len() {
            proof {
                assert(!series_defined(deals@, instruments@, next));
                if series_defined(deals@, instruments@, wall) {
                    lemma_series_prefix(deals@, instruments@, wall, i + 1);
                    assert(false);
                }
                assert(series_overflows(deals@, instruments@, whole, valuation_date, integrity_errors@));
            }
            return None;
        }
        let date = day.date;
        let ghost day_marks = day.marks@;
        let (book, book_marks) = book_of(deals, day.marks, date);
        let ghost bm = book_marks@;
        proof {
            assert(book_on(deals@, wall[i as int]) == (book@, bm));
            lemma_active_lengths(deals@, day_marks, date@);
        }
        let mut k: usize = 0;
        while k < book.len()
            invariant
                k <= book@.len(),
                book_marks@ == bm,
                bm.len() == book@.len(),
                forall|j: int| 0 <= j < k ==> pnl_defined(#[trigger] book@[j], instruments@, bm[j]),
                i < n,
                n == wall.len(),
                pre == wall.take(i as int),
                next == wall.take(i + 1),
                next.drop_last() == pre,
                next.last() == wall[i as int],
                book_on(deals@, wall[i as int]) == (book@, bm),
                prev@ == prev_total(deals@, instruments@, pre),
                series_window(deals@, whole, valuation_date, integrity_errors@) == Some(wall),
                whole == series,
            decreases book.len() - k,
        {
            if !pnl_ok(&book[k], instruments, &book_marks[k]) {
                proof {
                    assert(!day_defined(deals@, instruments@, wall[i as int], prev@));
                    assert(!series_defined(deals@, instruments@, next));
                    if series_defined(deals@, instruments@, wall) {
                        lemma_series_prefix(deals@, instruments@, wall, i + 1);
                        assert(false);
                    }
                    assert(series_overflows(deals@, instruments@, whole, valuation_date, integrity_errors@));
                }
                return None;
            }
            k = k + 1;
        }
        let valued = valuate_at(&book, instruments, date, book_marks);
        proof {
            lemma_valued_totals(valued@, book@, bm, instruments@, date@);
        }
        let (realized, unrealized) = match try_pnl_totals(&valued) {
            Some(t) => t,
            None => {
                proof {
                    assert(day_total(deals@, instruments@, wall[i as int]) is None);
                    assert(!series_defined(deals@, instruments@, next));
                    if series_defined(deals@, instruments@, wall) {
                        lemma_series_prefix(deals@, instruments@, wall, i + 1);
                        assert(false);
                    }
                    assert(series_overflows(deals@, instruments@, whole, valuation_date, integrity_errors@));
                }
                return None;
            },
        };
        let total = match realized.checked_add(unrealized) {
            Some(t) => t,
            None => {
                proof {
                    assert(day_total(deals@, instruments@, wall[i as int]) is None);
                    assert(!series_defined(deals@, instruments@, next));
                    if series_defined(deals@, instruments@, wall) {
                        lemma_series_prefix(deals@, instruments@, wall, i + 1);
                        assert(false);
                    }
                    assert(series_overflows(deals@, instruments@, whole, valuation_date, integrity_errors@));
                }
                return None;
            },
        };
        let change = match total.checked_sub(prev) {
            Some(c) => c,
            None => {
                proof {
                    assert(!series_defined(deals@, instruments@, next));
                    if series_defined(deals@, instruments@, wall) {
                        lemma_series_prefix(deals@, instruments@, wall, i + 1);
                        assert(false);
                    }
                    assert(series_overflows(deals@, instruments@, whole, valuation_date, integrity_errors@));
                }
                return None;
            },
        };
        let unpriced = count_unpriced(&valued);
        let ghost old_warned = warned@;
        push_series_row(&mut out, date, book.len(), realized, unrealized, total, change);
        if unpriced > 0 {
            warned.push((date, unpriced));
        }
        proof {
            assert(day_total(deals@, instruments@, wall[i as int]) == Some(total@));
            assert(day_defined(deals@, instruments@, wall[i as int], prev_total(deals@, instruments@, pre)));
            assert(series_defined(deals@, instruments@, next));
            assert(last_change(deals@, instruments@, next) == change@);
            assert(changes_follow_totals(deals@, instruments@, next));
            assert(out@ =~= head + series_lines(deals@, instruments@, next));
            if unpriced > 0 {
                assert(warned@.drop_last() =~= old_warned);
            } else {
                assert(warned@ == old_warned);
            }
            assert(warn_text(warned@) =~= series_warnings(deals@, instruments@, next));
        }
        prev = total;
        i = i + 1;
    }
    proof {
        assert(wall.take(n as int) =~= wall);
    }
    push_warnings(&mut out, &warned);
    out.append("\n");
    proof {
        assert(out@ =~= series_report(deals@, instruments@, source_text, wall));
    }
    Some(Ok(out))
}

/// Daily portfolio P&L trajectory over the market series.
///
/// For each trading day in [earliest deal date, evaluation date], values
/// the book *as composed on that day* (a deal contributes only from its
/// inception date) and reports realized, unrealized and total P&L plus
/// the change of the total from the day before. The evaluation date is
/// the valuation date when there is one, else the last day of the
/// history. The arithmetic must not overflow a decimal (see
/// [`try_pnl_series`]).
pub fn pnl_series(
    deals: &[Deal],
    instruments: &[Instrument],
    series: Option<MarketSeries>,
    valuation_date: Option<Date>,
    integrity_errors: &[String],
) -> (r: crate::error::Result<String>)
    requires
        !series_overflows(deals@, instruments@, series, valuation_date, integrity_errors@),
    ensures
        is_series_result(deals@, instruments@, series, valuation_date, integrity_errors@, r),
        series_window(deals@, series, valuation_date, integrity_errors@) matches Some(w)
            ==> changes_follow_totals(deals@, instruments@, w),
{
    match try_pnl_series(deals, instruments, series, valuation_date, integrity_errors) {
        Some(r) => r,
        None => Err(Error::Other(String::new())),
    }
}

} // verus!
