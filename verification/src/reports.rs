//! The report registry and the text of the reports.

use vstd::prelude::*;
use vstd::string::{StrSliceExecFns, StringExecFns};

use crate::dates::civil::{valid_ymd};
use crate::dates::{iso_date, Date};
use crate::decimal::{checked_sum, rendered_decimal, rendered_fixed, rounded_dp, lemma_fits_at_two_places, DecimalParts};
use crate::error::Error;
use crate::dates::instant::jiff_rendered_timestamp;
use crate::decimal::{is_negative, zero_parts};
use crate::portfolio::{
    compress, compress_defined, is_compression, is_net_position, net_cost, net_quantity, pnl_total, pnl_totals,
    position_avg_price, position_quantity,
    try_pnl_totals, MarkSource, Position, Valuation, ValuedDeal,
};
use crate::trades::Deal;
use crate::config::{at, currency_of, ids_distinct, is_sorted_index};
use crate::instruments::{spec_clearing, spec_id, spec_maturity, ClearingStatus, Instrument, PutOrCall};
use crate::text::{
    dashes, nat_digits, nat_text, pad_left, pad_right, push_padded_left, push_padded_right,
    repeat_char,
};
use crate::trades::BuySell;

verus! {

/// Names of the known reports, in listing order.
pub open spec fn report_names() -> Seq<Seq<char>> {
    seq![
        "instruments"@,
        "deals"@,
        "positions"@,
        "pnl"@,
        "pnl-series"@,
        "risk"@,
    ]
}

/// One-line descriptions of the known reports, in listing order.
pub open spec fn report_descriptions() -> Seq<Seq<char>> {
    seq![
        "Instrument specification listing (static reference data)"@,
        "Trade-by-trade deal listing"@,
        "Compressed net positions per instrument"@,
        "P&L on raw deals, split into realized/unrealized with totals"@,
        "Daily portfolio P&L trajectory over the market series (composition-aware)"@,
        "Position greeks, calibration residuals, model marks + model book value"@,
    ]
}

/// The known reports.
#[derive(Clone, Copy, Debug, PartialEq, Eq)]
pub enum ReportKind {
    Instruments,
    Deals,
    Positions,
    Pnl,
    PnlSeries,
    Risk,
}

/// Position of `kind` in the listing order.
pub open spec fn report_index(kind: ReportKind) -> int {
    match kind {
        ReportKind::Instruments => 0,
        ReportKind::Deals => 1,
        ReportKind::Positions => 2,
        ReportKind::Pnl => 3,
        ReportKind::PnlSeries => 4,
        ReportKind::Risk => 5,
    }
}

/// The table of reports: (name, description) in listing order. It is
/// the single source of the names, the descriptions and the CLI help.
fn report_table() -> (r: Vec<(&'static str, &'static str)>)
    ensures
        r@.len() == 6,
        forall|i: int|
            0 <= i < 6 ==> (#[trigger] r@[i]).0@ == report_names()[i] && r@[i].1@
                == report_descriptions()[i],
{
    proof {
        reveal_strlit("instruments");
        reveal_strlit("deals");
        reveal_strlit("positions");
        reveal_strlit("pnl");
        reveal_strlit("pnl-series");
        reveal_strlit("risk");
        reveal_strlit("Instrument specification listing (static reference data)");
        reveal_strlit("Trade-by-trade deal listing");
        reveal_strlit("Compressed net positions per instrument");
        reveal_strlit("P&L on raw deals, split into realized/unrealized with totals");
        reveal_strlit("Daily portfolio P&L trajectory over the market series (composition-aware)");
        reveal_strlit("Position greeks, calibration residuals, model marks + model book value");
    }
    let mut v: Vec<(&'static str, &'static str)> = Vec::new();
    v.push(("instruments", "Instrument specification listing (static reference data)"));
    v.push(("deals", "Trade-by-trade deal listing"));
    v.push(("positions", "Compressed net positions per instrument"));
    v.push(("pnl", "P&L on raw deals, split into realized/unrealized with totals"));
    v.push(
        (
            "pnl-series",
            "Daily portfolio P&L trajectory over the market series (composition-aware)",
        ),
    );
    v.push(("risk", "Position greeks, calibration residuals, model marks + model book value"));
    v
}

/// List all known report names.
pub fn available() -> (r: Vec<&'static str>)
    ensures
        r@.len() == report_names().len(),
        forall|i: int| 0 <= i < r@.len() ==> (#[trigger] r@[i])@ == report_names()[i],
{
    let table = report_table();
    let mut names: Vec<&'static str> = Vec::new();
    let mut i: usize = 0;
    while i < table.len()
        invariant
            i <= table@.len(),
            table@.len() == 6,
            forall|k: int|
                0 <= k < 6 ==> (#[trigger] table@[k]).0@ == report_names()[k] && table@[k].1@
                    == report_descriptions()[k],
            names@.len() == i,
            forall|k: int| 0 <= k < i ==> (#[trigger] names@[k])@ == report_names()[k],
        decreases table.len() - i,
    {
        names.push(table[i].0);
        i = i + 1;
    }
    names
}

/// `name -> description` pairs for every report. Drives CLI help.
pub fn descriptions() -> (r: Vec<(&'static str, &'static str)>)
    ensures
        r@.len() == report_names().len(),
        forall|i: int|
            0 <= i < r@.len() ==> (#[trigger] r@[i]).0@ == report_names()[i] && r@[i].1@
                == report_descriptions()[i],
{
    report_table()
}

/// Position of `name` among the report names, if it is one.
pub open spec fn report_position(name: Seq<char>) -> Option<int> {
    if exists|i: int| 0 <= i < report_names().len() && report_names()[i] == name {
        Some(choose|i: int| 0 <= i < report_names().len() && report_names()[i] == name)
    } else {
        None
    }
}

/// The report names are distinct.
pub(crate) proof fn lemma_names_distinct()
    ensures
        forall|i: int, j: int|
            0 <= i < j < report_names().len() ==> report_names()[i] != report_names()[j],
{
    reveal_strlit("instruments");
    reveal_strlit("deals");
    reveal_strlit("positions");
    reveal_strlit("pnl");
    reveal_strlit("pnl-series");
    reveal_strlit("risk");
    let n = report_names();
    assert(n[0].len() == 11 && n[1].len() == 5 && n[2].len() == 9);
    assert(n[3].len() == 3 && n[4].len() == 10 && n[5].len() == 4);
}

/// Every listed report name resolves to its own place in the listing, so
/// `describe` and `report_kind` accept exactly the names `available`
/// returns.
pub proof fn lemma_listed_reports_resolve(i: int)
    requires
        0 <= i < report_names().len(),
    ensures
        report_position(report_names()[i]) == Some(i),
{
    lemma_names_distinct();
    let name = report_names()[i];
    assert(exists|j: int| 0 <= j < report_names().len() && report_names()[j] == name);
    let j = choose|j: int| 0 <= j < report_names().len() && report_names()[j] == name;
    if j < i {
        assert(report_names()[j] != report_names()[i]);
    } else if j > i {
        assert(report_names()[i] != report_names()[j]);
    }
}

/// Position of `name` in the report table.
fn find_report(name: &str) -> (r: Option<usize>)
    ensures
        r matches Some(i) ==> i < report_names().len() && report_names()[i as int] == name@,
        r is None ==> forall|i: int| 0 <= i < report_names().len() ==> report_names()[i] != name@,
{
    let table = report_table();
    let key = String::from_str(name);
    let mut i: usize = 0;
    while i < table.len()
        invariant
            i <= table@.len(),
            table@.len() == 6,
            key@ == name@,
            forall|k: int| 0 <= k < 6 ==> (#[trigger] table@[k]).0@ == report_names()[k],
            forall|k: int| 0 <= k < i ==> report_names()[k] != name@,
        decreases table.len() - i,
    {
        if String::from_str(table[i].0) == key {
            return Some(i);
        }
        i = i + 1;
    }
    None
}

/// One-line description for a report name, or `None` if unknown.
pub fn describe(name: &str) -> (r: Option<&'static str>)
    ensures
        r is Some <==> report_position(name@) is Some,
        r matches Some(d) ==> d@ == report_descriptions()[report_position(name@).unwrap()],
{
    proof {
        lemma_names_distinct();
    }
    let table = report_table();
    match find_report(name) {
        Some(i) => {
            proof {
                let j = report_position(name@).unwrap();
                assert(report_names()[i as int] == name@);
            }
            Some(table[i].1)
        },
        None => None,
    }
}

/// `parts` joined with `sep` between consecutive parts.
pub open spec fn join(parts: Seq<Seq<char>>, sep: Seq<char>) -> Seq<char>
    decreases parts.len(),
{
    if parts.len() == 0 {
        Seq::empty()
    } else if parts.len() == 1 {
        parts[0]
    } else {
        join(parts.drop_last(), sep) + sep + parts.last()
    }
}

/// Text of the error for an unknown report name.
pub open spec fn unknown_report_message(name: Seq<char>) -> Seq<char> {
    "unknown report '"@ + name + "'. available: "@ + join(report_names(), ", "@)
}

/// The report called `name`, or a configuration error naming the
/// available reports.
pub fn report_kind(name: &str) -> (r: crate::error::Result<ReportKind>)
    ensures
        r matches Ok(k) ==> report_names()[report_index(k)] == name@,
        r is Err <==> report_position(name@) is None,
        r matches Err(e) ==> e matches Error::Config(m) && m@ == unknown_report_message(name@),
{
    match find_report(name) {
        Some(0) => Ok(ReportKind::Instruments),
        Some(1) => Ok(ReportKind::Deals),
        Some(2) => Ok(ReportKind::Positions),
        Some(3) => Ok(ReportKind::Pnl),
        Some(4) => Ok(ReportKind::PnlSeries),
        Some(_) => Ok(ReportKind::Risk),
        None => {
            let names = available();
            proof {
                reveal_strlit("unknown report '");
                reveal_strlit("'. available: ");
                reveal_strlit(", ");
            }
            let mut msg = String::from_str("unknown report '").concat(name).concat(
                "'. available: ",
            );
            let ghost prefix = msg@;
            let mut i: usize = 0;
            while i < names.len()
                invariant
                    i <= names@.len(),
                    names@.len() == report_names().len(),
                    forall|k: int| 0 <= k < names@.len() ==> (#[trigger] names@[k])@ == report_names()[k],
                    msg@ == prefix + join(report_names().take(i as int), ", "@),
                    ", "@ == seq![',', ' '],
                decreases names.len() - i,
            {
                proof {
                    let t = report_names().take(i + 1);
                    assert(t.drop_last() =~= report_names().take(i as int));
                    assert(t.last() == report_names()[i as int]);
                }
                if i > 0 {
                    msg.append(", ");
                }
                msg.append(names[i]);
                i = i + 1;
            }
            proof {
                assert(report_names().take(6) =~= report_names());
            }
            Err(Error::Config(msg))
        },
    }
}

/// Text of a date as `Display` for dates writes it.
pub open spec fn date_text(d: Date) -> Seq<char> {
    iso_date(d.spec_year() as i16, d.spec_month() as i8, d.spec_day() as i8)
}

/// `Debug` text of a direction.
pub open spec fn direction_text(d: BuySell) -> Seq<char> {
    match d {
        BuySell::Buy => "Buy"@,
        BuySell::Sell => "Sell"@,
    }
}

/// `Debug` text of a direction.
fn direction_str(d: BuySell) -> (r: &'static str)
    ensures
        r@ == direction_text(d),
{
    match d {
        BuySell::Buy => {
            proof {
                reveal_strlit("Buy");
            }
            "Buy"
        },
        BuySell::Sell => {
            proof {
                reveal_strlit("Sell");
            }
            "Sell"
        },
    }
}

/// Name of a mark source in the Source column.
pub open spec fn source_text(s: MarkSource) -> Seq<char> {
    match s {
        MarkSource::Settle => "settle"@,
        MarkSource::Model => "model"@,
        MarkSource::Proxy => "proxy"@,
    }
}

/// A money amount as the reports show it: rounded to cents, two digits.
pub open spec fn cents_text(p: DecimalParts) -> Seq<char> {
    rendered_fixed(rounded_dp(p, 2), 2)
}

/// The columns a pnl row starts with: deal, instrument, side, quantity,
/// trade price.
pub open spec fn pnl_row_start(v: ValuedDeal) -> Seq<char> {
    pad_right(v.deal.id@, 10) + " "@ + pad_right(v.deal.instrument_id@, 16) + " "@ + pad_left(
        direction_text(v.deal.direction),
        5,
    ) + " "@ + pad_left(rendered_decimal(v.deal.quantity@), 5) + "  "@ + pad_left(
        rendered_decimal(v.deal.price@),
        8,
    )
}

/// The columns of a priced pnl row after the trade: mark, source, P&L
/// and realization.
pub open spec fn valuation_text(val: Valuation) -> Seq<char> {
    "  "@ + pad_left(rendered_decimal(rounded_dp(val.mark@, 4)), 8) + "  "@ + pad_right(
        source_text(val.source),
        6,
    ) + "  "@ + pad_left(cents_text(val.pnl@), 10) + "  "@ + (if val.realized {
        "realized"@
    } else {
        "unrealized"@
    }) + "\n"@
}

/// One line of the pnl report.
pub open spec fn pnl_row(v: ValuedDeal) -> Seq<char> {
    match v.valuation {
        Ok(val) => pnl_row_start(v) + valuation_text(val),
        Err(e) => pnl_row_start(v) + "  UNPRICED: "@ + e.spec_message() + "\n"@,
    }
}

/// The lines of the pnl report for `valued`, in order.
pub open spec fn pnl_rows(valued: Seq<ValuedDeal>) -> Seq<char>
    decreases valued.len(),
{
    if valued.len() == 0 {
        Seq::empty()
    } else {
        pnl_rows(valued.drop_last()) + pnl_row(valued.last())
    }
}

/// Number of deals of `valued` that could not be priced.
pub open spec fn unpriced_count(valued: Seq<ValuedDeal>) -> nat
    decreases valued.len(),
{
    if valued.len() == 0 {
        0
    } else {
        unpriced_count(valued.drop_last()) + if valued.last().valuation is Err {
            1nat
        } else {
            0nat
        }
    }
}

/// Column titles of the pnl report.
pub open spec fn pnl_columns() -> Seq<char> {
    "Deal       Instrument        Side   Qty     Trade      Mark  Source         P&L"@
}

/// A totals line of the pnl report.
pub open spec fn total_line(label: Seq<char>, amount: DecimalParts) -> Seq<char> {
    pad_left(label, 70) + " "@ + pad_left(cents_text(amount), 10) + "\n"@
}

/// The source tag after the valuation date in report titles: ` [source]`.
pub open spec fn source_tag(source: Option<Seq<char>>) -> Seq<char> {
    match source {
        Some(s) => " ["@ + s + "]"@,
        None => Seq::empty(),
    }
}

/// The whole pnl report: title, columns, one line per valued deal, the
/// realized, unrealized and total P&L of the priced deals, and a warning
/// when deals could not be priced.
pub open spec fn pnl_report(
    valued: Seq<ValuedDeal>,
    deal_count: nat,
    valuation_date: Date,
    source: Option<Seq<char>>,
) -> Seq<char> {
    let realized = pnl_total(valued, true).unwrap();
    let unrealized = pnl_total(valued, false).unwrap();
    let n = unpriced_count(valued);
    "=== P&L ("@ + nat_digits(deal_count) + " deals) \u{2014} inception-to-date, marks as of "@
        + date_text(valuation_date) + source_tag(source) + " ===\n"@ + pnl_columns() + "\n"@
        + repeat_char('-', 90) + "\n"@ + pnl_rows(valued) + repeat_char('-', 90) + "\n"@
        + total_line("Realized:"@, realized) + total_line("Unrealized:"@, unrealized) + total_line(
        "Total:"@,
        checked_sum(realized, unrealized).unwrap(),
    ) + if n > 0 {
        "WARNING: "@ + nat_digits(n) + " deal(s) could not be priced and are excluded from totals\n"@
    } else {
        Seq::empty()
    }
}

/// The warning that closes the pnl report when `n` deals could not be
/// priced.
pub open spec fn unpriced_warning(n: nat) -> Seq<char> {
    if n > 0 {
        "WARNING: "@ + nat_digits(n) + " deal(s) could not be priced and are excluded from totals\n"@
    } else {
        Seq::empty()
    }
}

/// The totals of the pnl report are the P&L sums of the priced deals: the
/// `Realized:` line shows the sum over the deals whose valuation is
/// realized, the `Unrealized:` line the sum over the others, the `Total:`
/// line the two together, and only the warning about unpriced deals
/// follows them.
pub proof fn lemma_pnl_report_totals(
    valued: Seq<ValuedDeal>,
    deal_count: nat,
    valuation_date: Date,
    source: Option<Seq<char>>,
)
    requires
        pnl_report_defined(valued),
    ensures
        ({
            let text = pnl_report(valued, deal_count, valuation_date, source);
            let realized_total = pnl_total(valued, true).unwrap();
            let unrealized_total = pnl_total(valued, false).unwrap();
            let tail = total_line("Realized:"@, realized_total) + total_line("Unrealized:"@, unrealized_total)
                + total_line("Total:"@, checked_sum(realized_total, unrealized_total).unwrap()) + unpriced_warning(
                unpriced_count(valued),
            );
            tail.len() <= text.len() && text.subrange(text.len() - tail.len(), text.len() as int) == tail
        }),
{
    let text = pnl_report(valued, deal_count, valuation_date, source);
    let realized_total = pnl_total(valued, true).unwrap();
    let unrealized_total = pnl_total(valued, false).unwrap();
    let tail = total_line("Realized:"@, realized_total) + total_line("Unrealized:"@, unrealized_total) + total_line(
        "Total:"@,
        checked_sum(realized_total, unrealized_total).unwrap(),
    ) + unpriced_warning(unpriced_count(valued));
    let head = "=== P&L ("@ + nat_digits(deal_count) + " deals) \u{2014} inception-to-date, marks as of "@
        + date_text(valuation_date) + source_tag(source) + " ===\n"@ + pnl_columns() + "\n"@
        + repeat_char('-', 90) + "\n"@ + pnl_rows(valued) + repeat_char('-', 90) + "\n"@;
    assert(text =~= head + tail);
    assert((head + tail).subrange(head.len() as int, (head + tail).len() as int) =~= tail);
}

/// When no priced deal has realization `realized`, its P&L total is zero:
/// deals of the other kind, and unpriced deals, add nothing to it.
pub proof fn lemma_pnl_total_of_the_other_kind(valued: Seq<ValuedDeal>, realized: bool)
    requires
        forall|i: int| 0 <= i < valued.len() ==> ((#[trigger] valued[i]).valuation matches Ok(v) ==> v.realized != realized),
    ensures
        pnl_total(valued, realized) == Some(zero_parts()),
    decreases valued.len(),
{
    if valued.len() > 0 {
        let rest = valued.drop_last();
        assert forall|i: int| 0 <= i < rest.len() implies ((#[trigger] rest[i]).valuation matches Ok(v) ==> v.realized
            != realized) by {
            assert(rest[i] == valued[i]);
        }
        lemma_pnl_total_of_the_other_kind(rest, realized);
        assert(valued.last() == valued[valued.len() - 1]);
    }
}

/// The pnl report can be written: its totals do not overflow a decimal.
pub open spec fn pnl_report_defined(valued: Seq<ValuedDeal>) -> bool {
    &&& pnl_total(valued, true) is Some
    &&& pnl_total(valued, false) is Some
    &&& checked_sum(pnl_total(valued, true).unwrap(), pnl_total(valued, false).unwrap()) is Some
}

/// Append the columns every pnl row starts with.
fn push_row_start(out: &mut String, v: &ValuedDeal)
    ensures
        final(out)@ == old(out)@ + pnl_row_start(*v),
{
    proof {
        reveal_strlit(" ");
        reveal_strlit("  ");
    }
    push_padded_right(out, v.deal.id.as_str(), 10);
    out.append(" ");
    push_padded_right(out, v.deal.instrument_id.as_str(), 16);
    out.append(" ");
    push_padded_left(out, direction_str(v.deal.direction), 5);
    out.append(" ");
    push_padded_left(out, v.deal.quantity.to_string().as_str(), 5);
    out.append("  ");
    push_padded_left(out, v.deal.price.to_string().as_str(), 8);
    proof {
        assert(final(out)@ =~= old(out)@ + pnl_row_start(*v));
    }
}

/// Append the columns of a priced pnl row after the trade.
fn push_valuation_text(out: &mut String, val: &Valuation)
    ensures
        final(out)@ == old(out)@ + valuation_text(*val),
{
    proof {
        reveal_strlit("  ");
        reveal_strlit("\n");
        reveal_strlit("realized");
        reveal_strlit("unrealized");
    }
    let ghost start = out@;
    out.append("  ");
    push_padded_left(out, val.mark.round_dp(4).to_string().as_str(), 8);
    out.append("  ");
    push_padded_right(out, val.source.as_str(), 6);
    out.append("  ");
    let cents = val.pnl.round_dp(2);
    proof {
        use_type_invariant(&cents);
        lemma_fits_at_two_places(cents@, 2);
    }
    push_padded_left(out, cents.to_fixed_string(2).as_str(), 10);
    out.append("  ");
    if val.realized {
        out.append("realized");
    } else {
        out.append("unrealized");
    }
    out.append("\n");
    proof {
        assert(out@ =~= start + valuation_text(*val));
    }
}

/// Append one line of the pnl report.
fn push_pnl_row(out: &mut String, v: &ValuedDeal)
    ensures
        final(out)@ == old(out)@ + pnl_row(*v),
{
    proof {
        reveal_strlit("  ");
        reveal_strlit("\n");
        reveal_strlit("  UNPRICED: ");
    }
    let ghost start = out@;
    push_row_start(out, v);
    match &v.valuation {
        Ok(val) => {
            push_valuation_text(out, val);
            proof {
                assert(out@ =~= start + pnl_row(*v));
            }
        },
        Err(e) => {
            out.append("  UNPRICED: ");
            out.append(e.to_string().as_str());
            out.append("\n");
            proof {
                assert(out@ =~= start + pnl_row(*v));
            }
        },
    }
}

/// Append a totals line.
fn push_total_line(out: &mut String, label: &str, amount: crate::decimal::Decimal)
    ensures
        final(out)@ == old(out)@ + total_line(label@, amount@),
{
    proof {
        reveal_strlit(" ");
        reveal_strlit("\n");
    }
    let ghost start = out@;
    push_padded_left(out, label, 70);
    out.append(" ");
    let cents = amount.round_dp(2);
    proof {
        use_type_invariant(&cents);
        lemma_fits_at_two_places(cents@, 2);
    }
    push_padded_left(out, cents.to_fixed_string(2).as_str(), 10);
    out.append("\n");
    proof {
        assert(out@ =~= start + total_line(label@, amount@));
    }
}

/// The pnl report over valued deals: one line per deal with its mark,
/// source and P&L (or why it could not be priced), then the realized,
/// unrealized and total P&L of the priced deals. `source` names where the
/// marks came from. The totals must not overflow a decimal.
pub fn format_pnl(
    valued: &[ValuedDeal],
    deal_count: usize,
    valuation_date: Date,
    source: Option<&str>,
) -> (r: String)
    requires
        pnl_report_defined(valued@),
    ensures
        r@ == pnl_report(
            valued@,
            deal_count as nat,
            valuation_date,
            match source {
                Some(s) => Some(s@),
                None => None,
            },
        ),
{
    proof {
        reveal_strlit("=== P&L (");
        reveal_strlit(" deals) \u{2014} inception-to-date, marks as of ");
        reveal_strlit(" [");
        reveal_strlit("]");
        reveal_strlit(" ===\n");
        reveal_strlit("Deal       Instrument        Side   Qty     Trade      Mark  Source         P&L");
        reveal_strlit("\n");
        reveal_strlit("Realized:");
        reveal_strlit("Unrealized:");
        reveal_strlit("Total:");
        reveal_strlit("WARNING: ");
        reveal_strlit(" deal(s) could not be priced and are excluded from totals\n");
    }
    let mut out = String::from_str("=== P&L (");
    out.append(nat_text(deal_count as u64).as_str());
    out.append(" deals) \u{2014} inception-to-date, marks as of ");
    out.append(valuation_date.to_string().as_str());
    match source {
        Some(s) => {
            out.append(" [");
            out.append(s);
            out.append("]");
        },
        None => {},
    }
    out.append(" ===\n");
    out.append("Deal       Instrument        Side   Qty     Trade      Mark  Source         P&L");
    out.append("\n");
    out.append(dashes(90).as_str());
    out.append("\n");
    let ghost head = out@;
    let mut unpriced: u64 = 0;
    let mut i: usize = 0;
    while i < valued.len()
        invariant
            i <= valued@.len(),
            out@ == head + pnl_rows(valued@.take(i as int)),
            unpriced == unpriced_count(valued@.take(i as int)),
            unpriced <= i,
        decreases valued.len() - i,
    {
        proof {
            assert(valued@.take(i + 1).drop_last() =~= valued@.take(i as int));
            assert(valued@.take(i + 1).last() == valued@[i as int]);
        }
        push_pnl_row(&mut out, &valued[i]);
        if valued[i].valuation.is_err() {
            unpriced = unpriced + 1;
        }
        i = i + 1;
    }
    proof {
        assert(valued@.take(valued@.len() as int) =~= valued@);
    }
    let (realized, unrealized) = pnl_totals(valued);
    let total = match realized.checked_add(unrealized) {
        Some(t) => t,
        None => realized,
    };
    out.append(dashes(90).as_str());
    out.append("\n");
    push_total_line(&mut out, "Realized:", realized);
    push_total_line(&mut out, "Unrealized:", unrealized);
    push_total_line(&mut out, "Total:", total);
    if unpriced > 0 {
        out.append("WARNING: ");
        out.append(nat_text(unpriced).as_str());
        out.append(" deal(s) could not be priced and are excluded from totals\n");
    }
    proof {
        assert(out@ =~= pnl_report(
            valued@,
            deal_count as nat,
            valuation_date,
            match source {
                Some(s) => Some(s@),
                None => None,
            },
        ));
    }
    out
}

/// One line of the deals listing.
pub open spec fn deal_line(d: Deal) -> Seq<char> {
    pad_right(d.id@, 10) + " "@ + pad_right(d.instrument_id@, 16) + " "@ + pad_left(
        direction_text(d.direction),
        5,
    ) + " "@ + pad_left(rendered_decimal(d.quantity@), 5) + "  "@ + pad_left(
        rendered_decimal(d.price@),
        8,
    ) + "  "@ + jiff_rendered_timestamp(
        d.timestamp.spec_second() as i64,
        d.timestamp.spec_nanosecond() as i32,
    ) + "\n"@
}

/// The lines of the deals listing, in order.
pub open spec fn deal_lines(deals: Seq<Deal>) -> Seq<char>
    decreases deals.len(),
{
    if deals.len() == 0 {
        Seq::empty()
    } else {
        deal_lines(deals.drop_last()) + deal_line(deals.last())
    }
}

/// The deals listing: title with the count, column titles, one line per
/// deal in order.
pub open spec fn deals_listing(deals: Seq<Deal>) -> Seq<char> {
    "=== Deals ("@ + nat_digits(deals.len()) + ") ===\n"@
        + "Deal       Instrument        Side   Qty     Price  Timestamp\n"@ + repeat_char('-', 68)
        + "\n"@ + deal_lines(deals)
}

/// Trade-by-trade deal listing.
pub fn deals_report(deals: &[Deal]) -> (r: String)
    ensures
        r@ == deals_listing(deals@),
{
    proof {
        reveal_strlit("=== Deals (");
        reveal_strlit(") ===\n");
        reveal_strlit("Deal       Instrument        Side   Qty     Price  Timestamp\n");
        reveal_strlit("\n");
        reveal_strlit(" ");
        reveal_strlit("  ");
    }
    let mut out = String::from_str("=== Deals (");
    out.append(nat_text(deals.len() as u64).as_str());
    out.append(") ===\n");
    out.append("Deal       Instrument        Side   Qty     Price  Timestamp\n");
    out.append(dashes(68).as_str());
    out.append("\n");
    let ghost head = out@;
    let mut i: usize = 0;
    while i < deals.len()
        invariant
            i <= deals@.len(),
            out@ == head + deal_lines(deals@.take(i as int)),
            " "@ == seq![' '],
            "  "@ == seq![' ', ' '],
            "\n"@ == seq!['\n'],
        decreases deals.len() - i,
    {
        proof {
            assert(deals@.take(i + 1).drop_last() =~= deals@.take(i as int));
            assert(deals@.take(i + 1).last() == deals@[i as int]);
        }
        let ghost start = out@;
        let d = &deals[i];
        push_padded_right(&mut out, d.id.as_str(), 10);
        out.append(" ");
        push_padded_right(&mut out, d.instrument_id.as_str(), 16);
        out.append(" ");
        push_padded_left(&mut out, direction_str(d.direction), 5);
        out.append(" ");
        push_padded_left(&mut out, d.quantity.to_string().as_str(), 5);
        out.append("  ");
        push_padded_left(&mut out, d.price.to_string().as_str(), 8);
        out.append("  ");
        out.append(d.timestamp.to_string().as_str());
        out.append("\n");
        proof {
            assert(out@ =~= start + deal_line(*d));
        }
        i = i + 1;
    }
    proof {
        assert(deals@.take(deals@.len() as int) =~= deals@);
    }
    out
}

/// One line of an open position in the positions listing.
pub open spec fn position_line(p: Position) -> Seq<char> {
    pad_right(p.instrument_id@, 16) + " "@ + pad_left(direction_text(p.direction), 5) + " "@
        + pad_left(rendered_decimal(p.quantity@), 5) + "  "@ + pad_left(
        rendered_decimal(rounded_dp(p.avg_price@, 2)),
        10,
    ) + "\n"@
}

/// A position is open: its quantity is not zero.
pub open spec fn is_open(p: Position) -> bool {
    p.quantity@.1 != 0
}

/// The lines of the open positions, in order.
pub open spec fn open_lines(ps: Seq<Position>) -> Seq<char>
    decreases ps.len(),
{
    if ps.len() == 0 {
        Seq::empty()
    } else {
        open_lines(ps.drop_last()) + if is_open(ps.last()) {
            position_line(ps.last())
        } else {
            Seq::empty()
        }
    }
}

/// The lines of the flat positions, in order.
pub open spec fn flat_lines(ps: Seq<Position>) -> Seq<char>
    decreases ps.len(),
{
    if ps.len() == 0 {
        Seq::empty()
    } else {
        flat_lines(ps.drop_last()) + if !is_open(ps.last()) {
            pad_right(ps.last().instrument_id@, 16) + "  flat\n"@
        } else {
            Seq::empty()
        }
    }
}

/// The positions listing of the compressed positions `ps`: open positions
/// with side, quantity and average price, then, after a blank line, the
/// flat ones.
pub open spec fn positions_listing(ps: Seq<Position>) -> Seq<char> {
    "=== Positions ("@ + nat_digits(ps.len()) + " instruments) ===\n"@
        + "Instrument        Side   Qty   Avg Price\n"@ + repeat_char('-', 44) + "\n"@ + open_lines(ps)
        + if flat_lines(ps).len() > 0 {
        "\n"@ + flat_lines(ps)
    } else {
        Seq::empty()
    }
}

/// The open lines of two runs of positions, one after the other.
proof fn lemma_open_lines_concat(s1: Seq<Position>, s2: Seq<Position>)
    ensures
        open_lines(s1 + s2) == open_lines(s1) + open_lines(s2),
    decreases s2.len(),
{
    if s2.len() == 0 {
        assert(s1 + s2 =~= s1);
        assert(open_lines(s1) + open_lines(s2) =~= open_lines(s1));
    } else {
        lemma_open_lines_concat(s1, s2.drop_last());
        assert((s1 + s2).drop_last() =~= s1 + s2.drop_last());
        assert((s1 + s2).last() == s2.last());
    }
}

/// The Side column text of a position whose net signed quantity is `net`.
pub open spec fn side_column(net: DecimalParts) -> Seq<char> {
    if is_negative(net) {
        pad_left("Sell"@, 5)
    } else {
        pad_left("Buy"@, 5)
    }
}

/// The open lines of a single open position are its line.
proof fn lemma_open_line_of_one(pos: Position)
    requires
        is_open(pos),
    ensures
        open_lines(seq![pos]) == position_line(pos),
{
    let s = seq![pos];
    assert(s.drop_last() =~= Seq::<Position>::empty());
    assert(s.last() == pos);
    assert(open_lines(Seq::<Position>::empty()) =~= Seq::<char>::empty());
    assert(open_lines(s) =~= open_lines(s.drop_last()) + position_line(pos));
}

/// The listing runs through the open lines of the positions before `i`,
/// then the line of position `i` when it is open.
proof fn lemma_listing_around(ps: Seq<Position>, i: int)
    requires
        0 <= i < ps.len(),
        is_open(ps[i]),
    ensures
        exists|x: Seq<char>, y: Seq<char>| #[trigger] (x + position_line(ps[i]) + y) == positions_listing(ps),
{
    let pos = ps[i];
    let before = ps.take(i);
    let after = ps.skip(i + 1);
    assert(ps =~= before + seq![pos] + after);
    lemma_open_lines_concat(before + seq![pos], after);
    lemma_open_lines_concat(before, seq![pos]);
    lemma_open_line_of_one(pos);
    let header = "=== Positions ("@ + nat_digits(ps.len()) + " instruments) ===\n"@
        + "Instrument        Side   Qty   Avg Price\n"@ + repeat_char('-', 44) + "\n"@;
    let flat = if flat_lines(ps).len() > 0 {
        "\n"@ + flat_lines(ps)
    } else {
        Seq::<char>::empty()
    };
    let x = header + open_lines(before);
    let y = open_lines(after) + flat;
    assert(positions_listing(ps) =~= x + position_line(pos) + y);
}

/// A position line starts with the padded instrument id and the side of
/// the position.
proof fn lemma_position_line_starts(pos: Position)
    ensures
        position_line(pos) == pad_right(pos.instrument_id@, 16) + " "@ + pad_left(direction_text(pos.direction), 5)
            + (" "@ + pad_left(rendered_decimal(pos.quantity@), 5) + "  "@ + pad_left(
            rendered_decimal(rounded_dp(pos.avg_price@, 2)),
            10,
        ) + "\n"@),
{
    let a = pad_right(pos.instrument_id@, 16) + " "@ + pad_left(direction_text(pos.direction), 5);
    assert(position_line(pos) =~= a + (" "@ + pad_left(rendered_decimal(pos.quantity@), 5) + "  "@ + pad_left(
        rendered_decimal(rounded_dp(pos.avg_price@, 2)),
        10,
    ) + "\n"@));
}

/// The line an open position of instrument `id` gets from `deals`: its
/// id, the side of the net signed quantity, the unsigned net quantity and
/// the average price to the cent.
pub open spec fn expected_position_line(deals: Seq<Deal>, id: Seq<char>) -> Seq<char> {
    let net = net_quantity(deals, id).unwrap();
    let cost = net_cost(deals, id).unwrap();
    pad_right(id, 16) + " "@ + side_column(net) + " "@ + pad_left(rendered_decimal(position_quantity(net)), 5)
        + "  "@ + pad_left(rendered_decimal(rounded_dp(position_avg_price(net, cost).unwrap(), 2)), 10) + "\n"@
}

/// Each open position of the positions listing is shown on a line of its
/// own: after the padded instrument id comes the side of the net position
/// (`Sell` exactly when the net signed quantity of the instrument's deals
/// is below zero, `Buy` otherwise), then the unsigned net quantity and the
/// average price of those deals.
pub proof fn lemma_positions_listing_lines(deals: Seq<Deal>, ps: Seq<Position>, i: int)
    requires
        is_compression(deals, ps),
        0 <= i < ps.len(),
        is_open(ps[i]),
    ensures
        ({
            let expected = expected_position_line(deals, ps[i].instrument_id@);
            exists|k: int|
                0 <= k && k + expected.len() <= positions_listing(ps).len() && #[trigger] positions_listing(
                    ps,
                ).subrange(k, k + expected.len()) == expected
        }),
{
    reveal_strlit("Sell");
    reveal_strlit("Buy");
    let pos = ps[i];
    assert(is_net_position(deals, pos));
    let expected = expected_position_line(deals, pos.instrument_id@);
    lemma_position_line_starts(pos);
    assert(position_line(pos) =~= expected);
    lemma_listing_around(ps, i);
    let (x, y) = choose|x: Seq<char>, y: Seq<char>| #[trigger] (x + position_line(pos) + y) == positions_listing(ps);
    let k = x.len() as int;
    assert((x + expected + y).subrange(k, k + expected.len()) =~= expected);
}

/// Compressed net positions per instrument. The arithmetic must not
/// overflow a decimal.
pub fn positions_report(deals: &[Deal]) -> (r: String)
    requires
        compress_defined(deals@),
    ensures
        exists|ps: Seq<Position>| #[trigger] is_compression(deals@, ps) && r@ == positions_listing(ps),
{
    proof {
        reveal_strlit("=== Positions (");
        reveal_strlit(" instruments) ===\n");
        reveal_strlit("Instrument        Side   Qty   Avg Price\n");
        reveal_strlit("\n");
        reveal_strlit(" ");
        reveal_strlit("  ");
        reveal_strlit("  flat\n");
    }
    let positions = compress(deals);
    let ghost ps = positions@;
    let mut out = String::from_str("=== Positions (");
    out.append(nat_text(positions.len() as u64).as_str());
    out.append(" instruments) ===\n");
    out.append("Instrument        Side   Qty   Avg Price\n");
    out.append(dashes(44).as_str());
    out.append("\n");
    let ghost head = out@;
    let mut flat = String::new();
    let mut i: usize = 0;
    while i < positions.len()
        invariant
            i <= ps.len(),
            ps == positions@,
            out@ == head + open_lines(ps.take(i as int)),
            flat@ == flat_lines(ps.take(i as int)),
            " "@ == seq![' '],
            "  "@ == seq![' ', ' '],
            "\n"@ == seq!['\n'],
        decreases positions.len() - i,
    {
        proof {
            assert(ps.take(i + 1).drop_last() =~= ps.take(i as int));
            assert(ps.take(i + 1).last() == ps[i as int]);
        }
        let p = &positions[i];
        if !p.quantity.is_zero() {
            let ghost start = out@;
            push_padded_right(&mut out, p.instrument_id.as_str(), 16);
            out.append(" ");
            push_padded_left(&mut out, direction_str(p.direction), 5);
            out.append(" ");
            push_padded_left(&mut out, p.quantity.to_string().as_str(), 5);
            out.append("  ");
            push_padded_left(&mut out, p.avg_price.round_dp(2).to_string().as_str(), 10);
            out.append("\n");
            proof {
                assert(out@ =~= start + position_line(*p));
                assert(flat_lines(ps.take(i + 1)) =~= flat_lines(ps.take(i as int)));
                assert(open_lines(ps.take(i + 1)) =~= open_lines(ps.take(i as int)) + position_line(*p));
            }
        } else {
            let ghost fstart = flat@;
            push_padded_right(&mut flat, p.instrument_id.as_str(), 16);
            flat.append("  flat\n");
            proof {
                assert(open_lines(ps.take(i + 1)) =~= open_lines(ps.take(i as int)));
                assert(flat_lines(ps.take(i + 1)) =~= fstart + pad_right(p.instrument_id@, 16)
                    + "  flat\n"@);
            }
        }
        i = i + 1;
    }
    proof {
        assert(ps.take(ps.len() as int) =~= ps);
    }
    if flat.unicode_len() > 0 {
        out.append("\n");
        out.append(flat.as_str());
    }
    proof {
        assert(out@ =~= positions_listing(ps));
    }
    out
}

/// The type name of an instrument.
pub open spec fn type_text(inst: Instrument) -> Seq<char> {
    match inst {
        Instrument::Future(_) => "Future"@,
        Instrument::EuropeanOption(_) => "EuropeanOption"@,
        Instrument::Equity(_) => "Equity"@,
        Instrument::Payment(_) => "Payment"@,
        Instrument::Swap(_) => "Swap"@,
        Instrument::Bond(_) => "Bond"@,
        Instrument::FxForward(_) => "FxForward"@,
        Instrument::Basket(_) => "Basket"@,
    }
}

/// Underlying column: that of a future or an option, `-` otherwise.
pub open spec fn underlying_text(inst: Instrument) -> Seq<char> {
    match inst {
        Instrument::Future(f) => f.underlying@,
        Instrument::EuropeanOption(o) => o.underlying@,
        _ => "-"@,
    }
}

/// Clearing column.
pub open spec fn clearing_text(inst: Instrument) -> Seq<char> {
    match spec_clearing(inst) {
        Some(ClearingStatus::Cleared) => "cleared"@,
        Some(ClearingStatus::Uncleared) => "uncleared"@,
        None => "-"@,
    }
}

/// Put/call column.
pub open spec fn side_text(inst: Instrument) -> Seq<char> {
    match inst {
        Instrument::EuropeanOption(o) => match o.put_or_call {
            PutOrCall::Call => "C"@,
            PutOrCall::Put => "P"@,
        },
        _ => "-"@,
    }
}

/// Strike column.
pub open spec fn strike_text(inst: Instrument) -> Seq<char> {
    match inst {
        Instrument::EuropeanOption(o) => rendered_decimal(o.strike@),
        _ => "-"@,
    }
}

/// Expiry column: the maturity date, `-` for instruments that do not mature.
pub open spec fn expiry_text(inst: Instrument) -> Seq<char> {
    match spec_maturity(inst) {
        Some(n) => crate::config::day_text(n),
        None => "-"@,
    }
}

/// One line of the instruments listing.
pub open spec fn instrument_line(inst: Instrument) -> Seq<char> {
    instrument_line_head(inst) + instrument_line_tail(inst)
}

/// Id, type, underlying and currency columns of an instrument line.
pub open spec fn instrument_line_head(inst: Instrument) -> Seq<char> {
    pad_right(spec_id(inst), 16) + " "@ + pad_right(type_text(inst), 14) + " "@ + pad_right(
        underlying_text(inst),
        16,
    ) + " "@ + pad_right(currency_of(inst).id@, 4) + " "@
}

/// Clearing, side, strike and expiry columns of an instrument line.
pub open spec fn instrument_line_tail(inst: Instrument) -> Seq<char> {
    pad_right(clearing_text(inst), 9) + " "@ + pad_right(side_text(inst), 3) + " "@ + pad_left(
        strike_text(inst),
        8,
    ) + "  "@ + pad_left(expiry_text(inst), 10) + "\n"@
}

/// The lines of the instruments in sorted order, for the first `n` ids.
pub open spec fn instrument_lines(l: Seq<(String, usize)>, instruments: Seq<Instrument>, n: int) -> Seq<
    char,
>
    decreases n,
{
    if n <= 0 {
        Seq::empty()
    } else {
        instrument_lines(l, instruments, n - 1) + instrument_line(at(l, instruments, n - 1))
    }
}

/// The instruments listing: title with the count, column titles, one line
/// per instrument in id order.
pub open spec fn instruments_listing(l: Seq<(String, usize)>, instruments: Seq<Instrument>) -> Seq<char> {
    "=== Instruments ("@ + nat_digits(instruments.len()) + ") ===\n"@
        + "ID               Type           Underlying       Ccy  Clearing  P/C   Strike      Expiry\n"@
        + repeat_char('-', 88) + "\n"@ + instrument_lines(l, instruments, instruments.len() as int)
}

fn underlying_str(inst: &Instrument) -> (r: &str)
    ensures
        r@ == underlying_text(*inst),
{
    proof {
        reveal_strlit("-");
    }
    match inst {
        Instrument::Future(f) => f.underlying.as_str(),
        Instrument::EuropeanOption(o) => o.underlying.as_str(),
        _ => "-",
    }
}

fn clearing_str(inst: &Instrument) -> (r: &'static str)
    ensures
        r@ == clearing_text(*inst),
{
    proof {
        reveal_strlit("-");
    }
    match inst.clearing() {
        Some(c) => c.as_str(),
        None => "-",
    }
}

fn side_str(inst: &Instrument) -> (r: &'static str)
    ensures
        r@ == side_text(*inst),
{
    proof {
        reveal_strlit("-");
        reveal_strlit("C");
        reveal_strlit("P");
    }
    match inst {
        Instrument::EuropeanOption(o) => match o.put_or_call {
            PutOrCall::Call => "C",
            PutOrCall::Put => "P",
        },
        _ => "-",
    }
}

fn strike_string(inst: &Instrument) -> (r: String)
    ensures
        r@ == strike_text(*inst),
{
    proof {
        reveal_strlit("-");
    }
    match inst {
        Instrument::EuropeanOption(o) => o.strike.to_string(),
        _ => String::from_str("-"),
    }
}

fn expiry_string(inst: &Instrument) -> (r: String)
    ensures
        r@ == expiry_text(*inst),
{
    proof {
        reveal_strlit("-");
    }
    match inst.maturity() {
        Some(m) => crate::config::date_string(&m),
        None => String::from_str("-"),
    }
}

fn push_instrument_head(out: &mut String, inst: &Instrument)
    ensures
        final(out)@ == old(out)@ + instrument_line_head(*inst),
{
    proof {
        reveal_strlit(" ");
    }
    let ghost start = out@;
    let kind = inst.instrument_type();
    let ccy = inst.currency().id.as_str();
    push_padded_right(out, inst.id().as_str(), 16);
    out.append(" ");
    push_padded_right(out, kind, 14);
    out.append(" ");
    push_padded_right(out, underlying_str(inst), 16);
    out.append(" ");
    push_padded_right(out, ccy, 4);
    out.append(" ");
    proof {
        assert(kind@ == type_text(*inst));
        assert(ccy@ == currency_of(*inst).id@);
        assert(out@ =~= start + instrument_line_head(*inst));
    }
}

fn push_instrument_tail(out: &mut String, inst: &Instrument)
    ensures
        final(out)@ == old(out)@ + instrument_line_tail(*inst),
{
    proof {
        reveal_strlit(" ");
        reveal_strlit("  ");
        reveal_strlit("\n");
    }
    let ghost start = out@;
    let strike = strike_string(inst);
    let expiry = expiry_string(inst);
    push_padded_right(out, clearing_str(inst), 9);
    out.append(" ");
    push_padded_right(out, side_str(inst), 3);
    out.append(" ");
    push_padded_left(out, strike.as_str(), 8);
    out.append("  ");
    push_padded_left(out, expiry.as_str(), 10);
    out.append("\n");
    proof {
        assert(out@ =~= start + instrument_line_tail(*inst));
    }
}

fn push_instrument_line(out: &mut String, inst: &Instrument)
    ensures
        final(out)@ == old(out)@ + instrument_line(*inst),
{
    let ghost start = out@;
    push_instrument_head(out, inst);
    push_instrument_tail(out, inst);
    proof {
        assert(out@ =~= start + instrument_line(*inst));
    }
}

/// Instrument specification listing, in id order: pure reference data,
/// no valuation.
pub fn instruments_report(instruments: &[Instrument]) -> (r: String)
    requires
        ids_distinct(instruments@),
    ensures
        exists|l: Seq<(String, usize)>|
            #[trigger] is_sorted_index(l, instruments@) && r@ == instruments_listing(l, instruments@),
{
    proof {
        reveal_strlit("=== Instruments (");
        reveal_strlit(") ===\n");
        reveal_strlit("ID               Type           Underlying       Ccy  Clearing  P/C   Strike      Expiry\n");
        reveal_strlit("\n");
    }
    let l = crate::config::sorted_index(instruments);
    let mut out = String::from_str("=== Instruments (");
    out.append(nat_text(instruments.len() as u64).as_str());
    out.append(") ===\n");
    out.append("ID               Type           Underlying       Ccy  Clearing  P/C   Strike      Expiry\n");
    out.append(dashes(88).as_str());
    out.append("\n");
    let ghost head = out@;
    let mut t: usize = 0;
    while t < l.len()
        invariant
            t <= l@.len(),
            is_sorted_index(l@, instruments@),
            out@ == head + instrument_lines(l@, instruments@, t as int),
        decreases l.len() - t,
    {
        assert(l@[t as int].1 < instruments@.len());
        push_instrument_line(&mut out, &instruments[l[t].1]);
        t = t + 1;
    }
    proof {
        assert(out@ =~= instruments_listing(l@, instruments@));
    }
    out
}

/// Text of the refusal of a valuation report over a book with integrity
/// errors.
pub open spec fn refusal_message(report: Seq<char>, errors: Seq<String>) -> Seq<char> {
    "report '"@ + report + "' refused: "@ + nat_digits(errors.len()) + " integrity error(s), first: "@
        + errors[0]@
}

/// Refuse valuation over a book with integrity errors.
pub(crate) fn refusal(report: &str, integrity_errors: &[String]) -> (r: Error)
    requires
        integrity_errors@.len() > 0,
    ensures
        r matches Error::Config(m) && m@ == refusal_message(report@, integrity_errors@),
{
    proof {
        reveal_strlit("report '");
        reveal_strlit("' refused: ");
        reveal_strlit(" integrity error(s), first: ");
    }
    Error::Config(
        String::from_str("report '").concat(report).concat("' refused: ").concat(
            nat_text(integrity_errors.len() as u64).as_str(),
        ).concat(" integrity error(s), first: ").concat(integrity_errors[0].as_str()),
    )
}

/// Whether the pnl report's totals can be formed: both P&L totals and
/// their sum fit a decimal.
pub fn pnl_totals_fit(valued: &[ValuedDeal]) -> (r: bool)
    ensures
        r == pnl_report_defined(valued@),
{
    match try_pnl_totals(valued) {
        Some((realized, unrealized)) => realized.checked_add(unrealized).is_some(),
        None => false,
    }
}

/// The pnl report where its totals fit a decimal: `None` exactly when the
/// report is owed (a valuation date and no integrity errors) but its
/// totals overflow; otherwise what [`pnl`] gives.
pub fn try_pnl(
    valued: &[ValuedDeal],
    deal_count: usize,
    valuation_date: Option<Date>,
    source: Option<&str>,
    integrity_errors: &[String],
) -> (r: Option<crate::error::Result<String>>)
    ensures
        r is None <==> (valuation_date is Some && integrity_errors@.len() == 0 && !pnl_report_defined(
            valued@,
        )),
        valuation_date is None ==> (r matches Some(Err(Error::Config(m))) && m@
            == "report 'pnl' requires market_data in the config"@),
        valuation_date is Some && integrity_errors@.len() > 0 ==> (r matches Some(Err(Error::Config(m)))
            && m@ == refusal_message("pnl"@, integrity_errors@)),
        valuation_date is Some && integrity_errors@.len() == 0 && pnl_report_defined(valued@) ==> (r matches Some(
            Ok(t),
        ) && t@ == pnl_report(
            valued@,
            deal_count as nat,
            valuation_date.unwrap(),
            match source {
                Some(s) => Some(s@),
                None => None,
            },
        )),
{
    if valuation_date.is_some() && integrity_errors.len() == 0 && !pnl_totals_fit(valued) {
        None
    } else {
        Some(pnl(valued, deal_count, valuation_date, source, integrity_errors))
    }
}

/// The P&L report, the one report that values the book: it requires
/// market data (the valuation date and where the marks came from), and it
/// refuses while the book has integrity errors, since an official P&L over
/// a book whose settle history is known to be incomplete would be
/// silently wrong. Otherwise it is [`format_pnl`] of the valued deals.
pub fn pnl(
    valued: &[ValuedDeal],
    deal_count: usize,
    valuation_date: Option<Date>,
    source: Option<&str>,
    integrity_errors: &[String],
) -> (r: crate::error::Result<String>)
    requires
        valuation_date is Some && integrity_errors@.len() == 0 ==> pnl_report_defined(valued@),
    ensures
        valuation_date is None ==> (r matches Err(Error::Config(m)) && m@
            == "report 'pnl' requires market_data in the config"@),
        valuation_date is Some && integrity_errors@.len() > 0 ==> (r matches Err(Error::Config(m))
            && m@ == refusal_message("pnl"@, integrity_errors@)),
        valuation_date is Some && integrity_errors@.len() == 0 ==> (r matches Ok(t) && t@
            == pnl_report(
            valued@,
            deal_count as nat,
            valuation_date.unwrap(),
            match source {
                Some(s) => Some(s@),
                None => None,
            },
        )),
{
    proof {
        reveal_strlit("report 'pnl' requires market_data in the config");
        reveal_strlit("pnl");
    }
    match valuation_date {
        None => Err(Error::Config(String::from_str("report 'pnl' requires market_data in the config"))),
        Some(d) => {
            if integrity_errors.len() > 0 {
                Err(refusal("pnl", integrity_errors))
            } else {
                Ok(format_pnl(valued, deal_count, d, source))
            }
        },
    }
}

} // verus!
