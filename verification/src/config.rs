//! Book integrity checks: waivers, the routing of findings, and the
//! settle-completeness of the market series.

use vstd::prelude::*;
use vstd::string::StringExecFns;

use crate::dates::civil::{day_number, lemma_day_number_order, max_day_number, valid_ymd};
use crate::dates::instant::nanos_per_day;
use crate::dates::{iso_date, Date};
use crate::dates::calendar::Calendar;
use crate::dates::rules::DateRule;
use crate::instruments::{spec_clearing, spec_id, ClearingStatus, Future, Instrument};
use crate::portfolio::{proxy_twin, ProxyMarks};
use crate::reference_data::{Currency, SettlementIndex};
use crate::keyed::{has_key, key_slot, keys_sorted, lemma_insert_at_slot, lemma_slot_finds, lemma_update_same_key};
use crate::portfolio::{find_instrument, instrument_lookup};
use crate::trades::Deal;
use crate::error::Error;
use crate::text::{lemma_text_lt_irreflexive, lemma_text_lt_transitive, text_less, text_lt};

verus! {

/// A date-scoped waiver for known series holes (an upstream data gap),
/// committed in the book's config: findings inside `[from, through]`
/// downgrade from integrity errors to warnings.
#[derive(Clone, Debug)]
pub struct Waiver {
    pub from: Date,
    pub through: Date,
    pub reason: String,
}

/// `w` covers the day numbered `n`.
pub open spec fn spec_covers(w: Waiver, n: int) -> bool {
    w.from@ <= n <= w.through@
}

/// Some waiver of `ws` covers the day numbered `n`.
pub open spec fn any_waiver(ws: Seq<Waiver>, n: int) -> bool {
    exists|i: int| 0 <= i < ws.len() && spec_covers(#[trigger] ws[i], n)
}

/// The first waiver of `ws` that covers the day numbered `n`.
pub open spec fn first_waiver(ws: Seq<Waiver>, n: int) -> Option<Waiver>
    decreases ws.len(),
{
    if ws.len() == 0 {
        None
    } else if spec_covers(ws[0], n) {
        Some(ws[0])
    } else {
        first_waiver(ws.drop_first(), n)
    }
}

impl Waiver {
    /// True if `date` lies in the waiver's window (both ends included).
    pub fn covers(&self, date: Date) -> (r: bool)
        ensures
            r == spec_covers(*self, date@),
    {
        self.from.is_on_or_before(&date) && date.is_on_or_before(&self.through)
    }
}

/// The first waiver covering `date`, if any.
fn covering_waiver(waivers: &[Waiver], date: Date) -> (r: Option<usize>)
    ensures
        r matches Some(i) ==> i < waivers@.len() && first_waiver(waivers@, date@) == Some(
            waivers@[i as int],
        ),
        r is None ==> first_waiver(waivers@, date@) is None,
        r is Some <==> any_waiver(waivers@, date@),
{
    let mut i: usize = 0;
    proof {
        assert(waivers@.skip(0) =~= waivers@);
    }
    while i < waivers.len()
        invariant
            i <= waivers@.len(),
            first_waiver(waivers@, date@) == first_waiver(waivers@.skip(i as int), date@),
            forall|k: int| 0 <= k < i ==> !spec_covers(#[trigger] waivers@[k], date@),
        decreases waivers.len() - i,
    {
        proof {
            assert(waivers@.skip(i as int)[0] == waivers@[i as int]);
            assert(waivers@.skip(i as int).drop_first() =~= waivers@.skip(i + 1));
        }
        if waivers[i].covers(date) {
            return Some(i);
        }
        i = i + 1;
    }
    None
}

/// The views of a list of texts.
pub open spec fn texts(v: Seq<String>) -> Seq<Seq<char>> {
    v.map_values(|s: String| s@)
}

proof fn lemma_texts_push(v: Seq<String>, s: String)
    ensures
        texts(v.push(s)) == texts(v).push(s@),
{
    assert(texts(v.push(s)) =~= texts(v).push(s@));
}

/// Route a completeness finding by severity: a dealt instrument's failed
/// marking requirement is an integrity error (valuation refuses) unless
/// waived, then a warning marked as waived; an undealt instrument's is an
/// advisory warning.
pub fn require(
    dealt: bool,
    waived: bool,
    finding: String,
    warnings: &mut Vec<String>,
    errors: &mut Vec<String>,
)
    ensures
        dealt && !waived ==> texts(final(errors)@) == texts(old(errors)@).push(finding@) && texts(
            final(warnings)@,
        ) == texts(old(warnings)@),
        dealt && waived ==> texts(final(warnings)@) == texts(old(warnings)@).push(
            "waived: "@ + finding@,
        ) && texts(final(errors)@) == texts(old(errors)@),
        !dealt ==> texts(final(warnings)@) == texts(old(warnings)@).push(finding@) && texts(
            final(errors)@,
        ) == texts(old(errors)@),
{
    proof {
        reveal_strlit("waived: ");
    }
    if dealt && !waived {
        proof {
            lemma_texts_push(errors@, finding);
        }
        errors.push(finding);
    } else if dealt {
        let s = String::from_str("waived: ").concat(finding.as_str());
        proof {
            lemma_texts_push(warnings@, s);
        }
        warnings.push(s);
    } else {
        proof {
            lemma_texts_push(warnings@, finding);
        }
        warnings.push(finding);
    }
}

/// One trading day of the market series: its date and the instruments
/// with a settle on it.
#[derive(Clone, Debug)]
pub struct SeriesDay {
    pub date: Date,
    pub settled: Vec<String>,
}

/// What the completeness check reads of a market series: its day records
/// and the days it explicitly skips as non-trading.
#[derive(Clone, Debug)]
pub struct SeriesView {
    pub days: Vec<SeriesDay>,
    pub skipped_days: Vec<Date>,
}

/// The first record of `days` for the day numbered `n`.
pub open spec fn record_for(days: Seq<SeriesDay>, n: int) -> Option<SeriesDay>
    decreases days.len(),
{
    if days.len() == 0 {
        None
    } else if days[0].date@ == n {
        Some(days[0])
    } else {
        record_for(days.drop_first(), n)
    }
}

/// `ids` holds `id`.
pub open spec fn lists_id(ids: Seq<String>, id: Seq<char>) -> bool {
    exists|j: int| 0 <= j < ids.len() && #[trigger] ids[j]@ == id
}

/// `dates` holds the day numbered `n`.
pub open spec fn lists_date(dates: Seq<Date>, n: int) -> bool {
    exists|j: int| 0 <= j < dates.len() && #[trigger] dates[j]@ == n
}

/// A kind of per-day completeness finding.
#[derive(Clone, Copy, Debug, PartialEq, Eq, Structural)]
pub enum Gap {
    /// A trading day of the series with no settle for the instrument.
    MissingSettle,
    /// A calendar day the series does not account for at all.
    Uncovered,
}

/// The finding for instrument `id` on the day numbered `n`: a trading day
/// needs a settle; a skipped day needs nothing; any other day is
/// uncovered.
pub open spec fn gap_on(view: SeriesView, id: Seq<char>, n: int) -> Option<Gap> {
    match record_for(view.days@, n) {
        Some(r) => if lists_id(r.settled@, id) {
            None
        } else {
            Some(Gap::MissingSettle)
        },
        None => if lists_date(view.skipped_days@, n) {
            None
        } else {
            Some(Gap::Uncovered)
        },
    }
}

fn lists_id_exec(ids: &Vec<String>, id: &String) -> (r: bool)
    ensures
        r == lists_id(ids@, id@),
{
    let mut j: usize = 0;
    while j < ids.len()
        invariant
            j <= ids@.len(),
            forall|k: int| 0 <= k < j ==> (#[trigger] ids@[k])@ != id@,
        decreases ids.len() - j,
    {
        if ids[j] == *id {
            return true;
        }
        j = j + 1;
    }
    false
}

impl SeriesView {
    /// Position of the record for `date`, if the series has one.
    fn record_index(&self, date: Date) -> (r: Option<usize>)
        ensures
            r matches Some(i) ==> i < self.days@.len() && record_for(self.days@, date@) == Some(
                self.days@[i as int],
            ),
            r is None ==> record_for(self.days@, date@) is None,
    {
        let mut i: usize = 0;
        proof {
            assert(self.days@.skip(0) =~= self.days@);
        }
        while i < self.days.len()
            invariant
                i <= self.days@.len(),
                record_for(self.days@, date@) == record_for(self.days@.skip(i as int), date@),
            decreases self.days.len() - i,
        {
            proof {
                assert(self.days@.skip(i as int)[0] == self.days@[i as int]);
                assert(self.days@.skip(i as int).drop_first() =~= self.days@.skip(i + 1));
            }
            if self.days[i].date.same_day(&date) {
                return Some(i);
            }
            i = i + 1;
        }
        None
    }

    /// The completeness finding for instrument `id` on `date`.
    pub fn gap(&self, id: &String, date: Date) -> (r: Option<Gap>)
        ensures
            r == gap_on(*self, id@, date@),
    {
        match self.record_index(date) {
            Some(i) => if lists_id_exec(&self.days[i].settled, id) {
                None
            } else {
                Some(Gap::MissingSettle)
            },
            None => {
                let mut j: usize = 0;
                while j < self.skipped_days.len()
                    invariant
                        j <= self.skipped_days@.len(),
                        record_for(self.days@, date@) is None,
                        forall|k: int| 0 <= k < j ==> (#[trigger] self.skipped_days@[k])@ != date@,
                    decreases self.skipped_days.len() - j,
                {
                    if self.skipped_days[j].same_day(&date) {
                        proof {
                            assert(self.skipped_days@[j as int]@ == date@);
                        }
                        return None;
                    }
                    j = j + 1;
                }
                Some(Gap::Uncovered)
            },
        }
    }
}

/// A run of consecutive days with the same finding and waiver status.
#[derive(Clone, Copy, Debug)]
pub struct GapRun {
    pub kind: Gap,
    pub waived: bool,
    pub from: Date,
    pub to: Date,
}

/// A run as (kind, waived, first day number, last day number).
pub open spec fn run_view(r: GapRun) -> (Gap, bool, int, int) {
    (r.kind, r.waived, r.from@, r.to@)
}

/// The findings for instrument `id` on the days numbered `first..=last`,
/// collapsed into maximal runs of consecutive days of the same kind and
/// waiver status, in order.
pub open spec fn runs_through(
    view: SeriesView,
    id: Seq<char>,
    ws: Seq<Waiver>,
    first: int,
    last: int,
) -> Seq<(Gap, bool, int, int)>
    decreases last + 1 - first,
{
    if last < first {
        Seq::empty()
    } else {
        let r = runs_through(view, id, ws, first, last - 1);
        match gap_on(view, id, last) {
            None => r,
            Some(k) => {
                let w = any_waiver(ws, last);
                if r.len() > 0 && r.last().0 == k && r.last().1 == w && r.last().3 == last - 1 {
                    r.update(r.len() - 1, (k, w, r.last().2, last))
                } else {
                    r.push((k, w, last, last))
                }
            },
        }
    }
}

/// The runs of findings for instrument `id` from `first` through `eval`.
fn gap_runs(view: &SeriesView, id: &String, first: Date, eval: Date, waivers: &[Waiver]) -> (r: Vec<
    GapRun,
>)
    requires
        eval@ < max_day_number(),
    ensures
        r@.map_values(|g: GapRun| run_view(g)) == runs_through(*view, id@, waivers@, first@, eval@),
{
    let mut runs: Vec<GapRun> = Vec::new();
    if eval.is_before(&first) {
        proof {
            assert(runs@.map_values(|g: GapRun| run_view(g)) =~= runs_through(
                *view,
                id@,
                waivers@,
                first@,
                eval@,
            ));
        }
        return runs;
    }
    let mut date = first;
    proof {
        assert(runs@.map_values(|g: GapRun| run_view(g)) =~= runs_through(
            *view,
            id@,
            waivers@,
            first@,
            date@ - 1,
        ));
    }
    while date.is_on_or_before(&eval)
        invariant
            first@ <= date@ <= eval@ + 1,
            eval@ < max_day_number(),
            runs@.map_values(|g: GapRun| run_view(g)) == runs_through(
                *view,
                id@,
                waivers@,
                first@,
                date@ - 1,
            ),
        decreases eval@ + 1 - date@,
    {
        let ghost before = runs@.map_values(|g: GapRun| run_view(g));
        match view.gap(id, date) {
            None => {},
            Some(kind) => {
                let waived = covering_waiver(waivers, date).is_some();
                let n = runs.len();
                let extend = n > 0 && runs[n - 1].kind == kind && runs[n - 1].waived == waived
                    && date.days_since(&runs[n - 1].to) == 1;
                if extend {
                    let last = runs[n - 1];
                    runs.set(n - 1, GapRun { kind, waived, from: last.from, to: date });
                    proof {
                        assert(runs@.map_values(|g: GapRun| run_view(g)) =~= before.update(
                            n - 1,
                            (kind, waived, before.last().2, date@),
                        ));
                    }
                } else {
                    runs.push(GapRun { kind, waived, from: date, to: date });
                    proof {
                        assert(runs@.map_values(|g: GapRun| run_view(g)) =~= before.push(
                            (kind, waived, date@, date@),
                        ));
                    }
                }
            },
        }
        proof {
            use_type_invariant(&date);
            Date::lemma_view_facts(date, date);
        }
        date = date.add_days(1);
    }
    runs
}

/// The text of the date numbered `n`, as `Display` for dates writes it.
pub open spec fn day_text(n: int) -> Seq<char> {
    let (y, m, d) = choose|y: int, m: int, d: int| valid_ymd(y, m, d) && day_number(y, m, d) == n;
    iso_date(y as i16, m as i8, d as i8)
}

/// A date's text depends only on its day number.
proof fn lemma_date_text(x: Date)
    requires
        x.wf(),
    ensures
        iso_date(x.spec_year() as i16, x.spec_month() as i8, x.spec_day() as i8)
            == day_text(x@),
{
    let (y, m, d) = choose|y: int, m: int, d: int| valid_ymd(y, m, d) && day_number(y, m, d) == x@;
    assert(valid_ymd(x.spec_year(), x.spec_month(), x.spec_day()) && day_number(
        x.spec_year(),
        x.spec_month(),
        x.spec_day(),
    ) == x@);
    lemma_day_number_order(y, m, d, x.spec_year(), x.spec_month(), x.spec_day());
}

/// The text of a date, known to depend only on its day number.
pub(crate) fn date_string(x: &Date) -> (r: String)
    ensures
        r@ == day_text(x@),
{
    proof {
        use_type_invariant(x);
        lemma_date_text(*x);
    }
    x.to_string()
}

/// The days of a run as text: `from` alone, or `from..to`.
pub open spec fn span_text(from: int, to: int) -> Seq<char> {
    if from == to {
        day_text(from)
    } else {
        day_text(from) + ".."@ + day_text(to)
    }
}

/// What a run of findings for instrument `id` says.
pub open spec fn finding_text(id: Seq<char>, kind: Gap, from: int, to: int) -> Seq<char> {
    match kind {
        Gap::MissingSettle => "cleared instrument '"@ + id + "': no settlement in series on "@
            + span_text(from, to),
        Gap::Uncovered => "cleared instrument '"@ + id + "': series does not cover "@ + span_text(
            from,
            to,
        ),
    }
}

/// The reason given for a waived run: that of the first waiver covering
/// its first day.
pub open spec fn waiver_reason(ws: Seq<Waiver>, n: int) -> Seq<char> {
    match first_waiver(ws, n) {
        Some(w) => w.reason@,
        None => "waived"@,
    }
}

/// Warnings and integrity errors for the runs of instrument `id`: a waived
/// run is a warning naming the waiver's reason, any other an error.
pub open spec fn run_findings(
    id: Seq<char>,
    ws: Seq<Waiver>,
    runs: Seq<(Gap, bool, int, int)>,
) -> (Seq<Seq<char>>, Seq<Seq<char>>)
    decreases runs.len(),
{
    if runs.len() == 0 {
        (Seq::empty(), Seq::empty())
    } else {
        let (w, e) = run_findings(id, ws, runs.drop_last());
        let (kind, waived, from, to) = runs.last();
        let what = finding_text(id, kind, from, to);
        if waived {
            (w.push("waived ("@ + waiver_reason(ws, from) + "): "@ + what), e)
        } else {
            (w, e.push(what))
        }
    }
}

/// Append the finding of each run to `warnings` or `errors`.
fn emit_runs(
    id: &String,
    runs: &Vec<GapRun>,
    waivers: &[Waiver],
    warnings: &mut Vec<String>,
    errors: &mut Vec<String>,
)
    ensures
        ({
            let (w, e) = run_findings(id@, waivers@, runs@.map_values(|g: GapRun| run_view(g)));
            &&& texts(final(warnings)@) == texts(old(warnings)@) + w
            &&& texts(final(errors)@) == texts(old(errors)@) + e
        }),
{
    proof {
        reveal_strlit("..");
        reveal_strlit("cleared instrument '");
        reveal_strlit("': no settlement in series on ");
        reveal_strlit("': series does not cover ");
        reveal_strlit("waived (");
        reveal_strlit("): ");
        reveal_strlit("waived");
    }
    let ghost w0 = texts(warnings@);
    let ghost e0 = texts(errors@);
    let ghost all = runs@.map_values(|g: GapRun| run_view(g));
    let mut i: usize = 0;
    while i < runs.len()
        invariant
            i <= runs@.len(),
            all == runs@.map_values(|g: GapRun| run_view(g)),
            ({
                let (w, e) = run_findings(id@, waivers@, all.take(i as int));
                &&& texts(warnings@) == w0 + w
                &&& texts(errors@) == e0 + e
            }),
        decreases runs.len() - i,
    {
        proof {
            assert(all.take(i + 1).drop_last() =~= all.take(i as int));
            assert(all.take(i + 1).last() == run_view(runs@[i as int]));
        }
        let run = runs[i];
        let span = if run.from.same_day(&run.to) {
            date_string(&run.from)
        } else {
            date_string(&run.from).concat("..").concat(date_string(&run.to).as_str())
        };
        let what = match run.kind {
            Gap::MissingSettle => String::from_str("cleared instrument '").concat(id.as_str()).concat(
                "': no settlement in series on ",
            ).concat(span.as_str()),
            Gap::Uncovered => String::from_str("cleared instrument '").concat(id.as_str()).concat(
                "': series does not cover ",
            ).concat(span.as_str()),
        };
        if run.waived {
            let reason = match covering_waiver(waivers, run.from) {
                Some(k) => waivers[k].reason.clone(),
                None => String::from_str("waived"),
            };
            let s = String::from_str("waived (").concat(reason.as_str()).concat("): ").concat(
                what.as_str(),
            );
            proof {
                lemma_texts_push(warnings@, s);
            }
            warnings.push(s);
        } else {
            proof {
                lemma_texts_push(errors@, what);
            }
            errors.push(what);
        }
        i = i + 1;
    }
    proof {
        assert(all.take(runs@.len() as int) =~= all);
    }
}

/// `id` names a cleared instrument of `instruments`.
pub open spec fn cleared_in(instruments: Seq<Instrument>, id: Seq<char>) -> bool {
    match instrument_lookup(instruments, id) {
        Some(i) => spec_clearing(i) == Some(ClearingStatus::Cleared),
        None => false,
    }
}

/// Day number of the date a deal was struck (UTC).
pub open spec fn deal_day(d: Deal) -> int {
    d.timestamp@ / nanos_per_day()
}

/// The earliest deal date in instrument `id`, when it is a cleared
/// instrument of `instruments` that was dealt (uncleared instruments mark
/// to model and undealt ones have no history to demand).
pub open spec fn earliest_deal(deals: Seq<Deal>, instruments: Seq<Instrument>, id: Seq<char>) -> Option<
    int,
>
    decreases deals.len(),
{
    if deals.len() == 0 {
        None
    } else {
        let prev = earliest_deal(deals.drop_last(), instruments, id);
        let d = deals.last();
        if d.instrument_id@ == id && cleared_in(instruments, id) {
            match prev {
                Some(p) => Some(
                    if deal_day(d) < p {
                        deal_day(d)
                    } else {
                        p
                    },
                ),
                None => Some(deal_day(d)),
            }
        } else {
            prev
        }
    }
}

/// `l` lists, sorted by id, each cleared dealt instrument with its
/// earliest deal date.
pub open spec fn is_inception_list(
    l: Seq<(String, Date)>,
    deals: Seq<Deal>,
    instruments: Seq<Instrument>,
) -> bool {
    &&& keys_sorted(l)
    &&& forall|k: Seq<char>|
        #![trigger has_key(l, k)]
        #![trigger earliest_deal(deals, instruments, k)]
        has_key(l, k) <==> earliest_deal(deals, instruments, k) is Some
    &&& forall|j: int|
        0 <= j < l.len() ==> earliest_deal(deals, instruments, #[trigger] l[j].0@) == Some(
            l[j].1@,
        )
}

/// One deal more: only the earliest date of its own instrument can change.
proof fn lemma_earliest_step(deals: Seq<Deal>, n: int, instruments: Seq<Instrument>, k: Seq<char>)
    requires
        0 <= n < deals.len(),
    ensures
        earliest_deal(deals.take(n + 1), instruments, k) == (if deals[n].instrument_id@ == k
            && cleared_in(instruments, k) {
            match earliest_deal(deals.take(n), instruments, k) {
                Some(p) => Some(
                    if deal_day(deals[n]) < p {
                        deal_day(deals[n])
                    } else {
                        p
                    },
                ),
                None => Some(deal_day(deals[n])),
            }
        } else {
            earliest_deal(deals.take(n), instruments, k)
        }),
{
    assert(deals.take(n + 1).drop_last() =~= deals.take(n));
    assert(deals.take(n + 1).last() == deals[n]);
}

/// Cleared dealt instruments with their earliest deal dates, sorted by id.
fn inceptions(instruments: &[Instrument], deals: &[Deal]) -> (r: Vec<(String, Date)>)
    ensures
        is_inception_list(r@, deals@, instruments@),
{
    let mut m: Vec<(String, Date)> = Vec::new();
    let mut i: usize = 0;
    proof {
        assert(deals@.take(0) =~= Seq::<Deal>::empty());
    }
    while i < deals.len()
        invariant
            i <= deals@.len(),
            is_inception_list(m@, deals@.take(i as int), instruments@),
        decreases deals.len() - i,
    {
        let ghost prefix = deals@.take(i as int);
        let ghost next = deals@.take(i + 1);
        let deal = &deals[i];
        let id = &deal.instrument_id;
        proof {
            assert forall|k: Seq<char>| k != id@ implies #[trigger] earliest_deal(next, instruments@, k)
                == earliest_deal(prefix, instruments@, k) by {
                lemma_earliest_step(deals@, i as int, instruments@, k);
            }
            lemma_earliest_step(deals@, i as int, instruments@, id@);
        }
        let cleared = match find_instrument(instruments, id) {
            Some(j) => match instruments[j].clearing() {
                Some(ClearingStatus::Cleared) => true,
                _ => false,
            },
            None => false,
        };
        if cleared {
            let d = deal.timestamp.date();
            let p = key_slot(&m, id);
            proof {
                lemma_slot_finds(m@, p as int, id@);
            }
            let found = p < m.len() && m[p].0 == *id;
            let ghost old_m = m@;
            if found {
                let cur = m[p].1;
                proof {
                    assert(earliest_deal(prefix, instruments@, old_m[p as int].0@) == Some(cur@));
                }
                let e = if d.is_before(&cur) {
                    d
                } else {
                    cur
                };
                m.set(p, (id.clone(), e));
                proof {
                    assert(m@ =~= old_m.update(p as int, m@[p as int]));
                    lemma_update_same_key(old_m, p as int, m@[p as int]);
                    assert forall|j: int| 0 <= j < m@.len() implies earliest_deal(
                        next,
                        instruments@,
                        #[trigger] m@[j].0@,
                    ) == Some(m@[j].1@) by {
                        if j != p {
                            assert(m@[j] == old_m[j]);
                            if old_m[j].0@ == id@ {
                                crate::keyed::lemma_key_unique(old_m, j, p as int);
                            }
                        }
                    }
                }
            } else {
                proof {
                    assert(!has_key(old_m, id@));
                }
                m.insert(p, (id.clone(), d));
                proof {
                    assert(m@ =~= old_m.insert(p as int, m@[p as int]));
                    lemma_insert_at_slot(old_m, p as int, m@[p as int]);
                    assert forall|j: int| 0 <= j < m@.len() implies earliest_deal(
                        next,
                        instruments@,
                        #[trigger] m@[j].0@,
                    ) == Some(m@[j].1@) by {
                        if j < p {
                            assert(m@[j] == old_m[j]);
                            assert(has_key(old_m, old_m[j].0@));
                        } else if j > p {
                            assert(m@[j] == old_m[j - 1]);
                            assert(has_key(old_m, old_m[j - 1].0@));
                        }
                    }
                }
            }
        } else {
            proof {
                assert(earliest_deal(next, instruments@, id@) == earliest_deal(prefix, instruments@, id@));
                assert forall|j: int| 0 <= j < m@.len() implies earliest_deal(
                    next,
                    instruments@,
                    #[trigger] m@[j].0@,
                ) == Some(m@[j].1@) by {
                    assert(earliest_deal(prefix, instruments@, m@[j].0@) == Some(m@[j].1@));
                }
            }
        }
        i = i + 1;
    }
    proof {
        assert(deals@.take(deals@.len() as int) =~= deals@);
    }
    m
}

/// Completeness findings for the inception list `l`: per instrument in
/// order, the findings of its runs from its first deal date through `eval`.
pub open spec fn series_findings(
    view: SeriesView,
    ws: Seq<Waiver>,
    eval: int,
    l: Seq<(String, Date)>,
) -> (Seq<Seq<char>>, Seq<Seq<char>>)
    decreases l.len(),
{
    if l.len() == 0 {
        (Seq::empty(), Seq::empty())
    } else {
        let (w, e) = series_findings(view, ws, eval, l.drop_last());
        let (id, first) = l.last();
        let (w2, e2) = run_findings(id@, ws, runs_through(view, id@, ws, first@, eval));
        (w + w2, e + e2)
    }
}

/// Without waivers no run is waived.
proof fn lemma_runs_unwaived(view: SeriesView, id: Seq<char>, first: int, last: int)
    ensures
        forall|i: int|
            0 <= i < runs_through(view, id, Seq::<Waiver>::empty(), first, last).len()
                ==> !(#[trigger] runs_through(view, id, Seq::<Waiver>::empty(), first, last)[i]).1,
    decreases last + 1 - first,
{
    if last >= first {
        let e = Seq::<Waiver>::empty();
        lemma_runs_unwaived(view, id, first, last - 1);
        assert(!any_waiver(e, last));
        let r = runs_through(view, id, e, first, last - 1);
        let res = runs_through(view, id, e, first, last);
        assert forall|i: int| 0 <= i < res.len() implies !(#[trigger] res[i]).1 by {
            if i < r.len() {
                assert(!r[i].1);
            }
        }
    }
}

/// Runs that are not waived give no warnings.
proof fn lemma_unwaived_runs_only_err(id: Seq<char>, ws: Seq<Waiver>, runs: Seq<(Gap, bool, int, int)>)
    requires
        forall|i: int| 0 <= i < runs.len() ==> !(#[trigger] runs[i]).1,
    ensures
        run_findings(id, ws, runs).0 == Seq::<Seq<char>>::empty(),
    decreases runs.len(),
{
    if runs.len() > 0 {
        assert(!runs[runs.len() - 1].1);
        lemma_unwaived_runs_only_err(id, ws, runs.drop_last());
    }
}

/// Without waivers the completeness check warns about nothing: every
/// finding is an integrity error.
pub proof fn lemma_no_waivers_no_warnings(view: SeriesView, eval: int, l: Seq<(String, Date)>)
    ensures
        series_findings(view, Seq::<Waiver>::empty(), eval, l).0 == Seq::<Seq<char>>::empty(),
    decreases l.len(),
{
    if l.len() > 0 {
        lemma_no_waivers_no_warnings(view, eval, l.drop_last());
        let (id, first) = l.last();
        lemma_runs_unwaived(view, id@, first@, eval);
        lemma_unwaived_runs_only_err(
            id@,
            Seq::<Waiver>::empty(),
            runs_through(view, id@, Seq::<Waiver>::empty(), first@, eval),
        );
        let w = series_findings(view, Seq::<Waiver>::empty(), eval, l.drop_last()).0;
        assert(w + Seq::<Seq<char>>::empty() =~= Seq::<Seq<char>>::empty());
    }
}

/// Days without a finding give no runs.
proof fn lemma_clean_days_no_runs(view: SeriesView, id: Seq<char>, ws: Seq<Waiver>, first: int, last: int)
    requires
        forall|n: int| first <= n <= last ==> #[trigger] gap_on(view, id, n) is None,
    ensures
        runs_through(view, id, ws, first, last).len() == 0,
    decreases last + 1 - first,
{
    if last >= first {
        assert(gap_on(view, id, last) is None);
        lemma_clean_days_no_runs(view, id, ws, first, last - 1);
    }
}

/// A history that accounts for every day of every listed instrument
/// (a settle on each trading day, or the day skipped as non-trading)
/// gives neither warnings nor integrity errors.
pub proof fn lemma_complete_history_no_findings(
    view: SeriesView,
    ws: Seq<Waiver>,
    eval: int,
    l: Seq<(String, Date)>,
)
    requires
        forall|j: int, n: int|
            0 <= j < l.len() && l[j].1@ <= n <= eval ==> #[trigger] gap_on(view, l[j].0@, n) is None,
    ensures
        series_findings(view, ws, eval, l) == (Seq::<Seq<char>>::empty(), Seq::<Seq<char>>::empty()),
    decreases l.len(),
{
    if l.len() > 0 {
        let k = l.len() - 1;
        assert forall|j: int, n: int|
            0 <= j < l.drop_last().len() && l.drop_last()[j].1@ <= n <= eval implies #[trigger] gap_on(
            view,
            l.drop_last()[j].0@,
            n,
        ) is None by {
            assert(l.drop_last()[j] == l[j]);
        }
        lemma_complete_history_no_findings(view, ws, eval, l.drop_last());
        let (id, first) = l.last();
        assert forall|n: int| first@ <= n <= eval implies #[trigger] gap_on(view, id@, n) is None by {
            assert(l[k] == l.last());
        }
        lemma_clean_days_no_runs(view, id@, ws, first@, eval);
        let runs = runs_through(view, id@, ws, first@, eval);
        assert(run_findings(id@, ws, runs) == (Seq::<Seq<char>>::empty(), Seq::<Seq<char>>::empty()));
        assert(Seq::<Seq<char>>::empty() + Seq::<Seq<char>>::empty() =~= Seq::<Seq<char>>::empty());
    }
}

/// Days all covered by waivers give only waived runs.
proof fn lemma_covered_runs_waived(view: SeriesView, id: Seq<char>, ws: Seq<Waiver>, first: int, last: int)
    requires
        forall|n: int| first <= n <= last ==> #[trigger] any_waiver(ws, n),
    ensures
        forall|i: int|
            0 <= i < runs_through(view, id, ws, first, last).len()
                ==> (#[trigger] runs_through(view, id, ws, first, last)[i]).1,
    decreases last + 1 - first,
{
    if last >= first {
        assert(any_waiver(ws, last));
        lemma_covered_runs_waived(view, id, ws, first, last - 1);
        let r = runs_through(view, id, ws, first, last - 1);
        let res = runs_through(view, id, ws, first, last);
        assert forall|i: int| 0 <= i < res.len() implies (#[trigger] res[i]).1 by {
            if i < r.len() {
                assert(r[i].1);
            }
        }
    }
}

/// Waived runs give no integrity errors.
proof fn lemma_waived_runs_only_warn(id: Seq<char>, ws: Seq<Waiver>, runs: Seq<(Gap, bool, int, int)>)
    requires
        forall|i: int| 0 <= i < runs.len() ==> (#[trigger] runs[i]).1,
    ensures
        run_findings(id, ws, runs).1 == Seq::<Seq<char>>::empty(),
    decreases runs.len(),
{
    if runs.len() > 0 {
        assert(runs[runs.len() - 1].1);
        lemma_waived_runs_only_warn(id, ws, runs.drop_last());
    }
}

/// Waivers covering every day from each instrument's first deal through
/// the evaluation day turn every completeness finding into a warning: no
/// integrity error remains.
pub proof fn lemma_covering_waivers_leave_no_errors(
    view: SeriesView,
    ws: Seq<Waiver>,
    eval: int,
    l: Seq<(String, Date)>,
)
    requires
        forall|j: int, n: int|
            #![trigger l[j], any_waiver(ws, n)]
            0 <= j < l.len() && l[j].1@ <= n <= eval ==> any_waiver(ws, n),
    ensures
        series_findings(view, ws, eval, l).1 == Seq::<Seq<char>>::empty(),
    decreases l.len(),
{
    if l.len() > 0 {
        let k = l.len() - 1;
        assert forall|j: int, n: int|
            #![trigger l.drop_last()[j], any_waiver(ws, n)]
            0 <= j < l.drop_last().len() && l.drop_last()[j].1@ <= n <= eval implies any_waiver(ws, n) by {
            assert(l.drop_last()[j] == l[j]);
        }
        lemma_covering_waivers_leave_no_errors(view, ws, eval, l.drop_last());
        let (id, first) = l.last();
        assert forall|n: int| first@ <= n <= eval implies #[trigger] any_waiver(ws, n) by {
            assert(l[k] == l.last());
        }
        lemma_covered_runs_waived(view, id@, ws, first@, eval);
        lemma_waived_runs_only_warn(id@, ws, runs_through(view, id@, ws, first@, eval));
        let e = series_findings(view, ws, eval, l.drop_last()).1;
        assert(e + Seq::<Seq<char>>::empty() =~= Seq::<Seq<char>>::empty());
    }
}

/// Series settle-completeness: for every cleared, dealt instrument, each
/// day from its earliest deal date through `eval` must be a trading day of
/// the series with a settle for it, or a day the series skips as
/// non-trading. Findings collapse into runs of consecutive days of the
/// same kind and waiver status; a waived run becomes one warning, any
/// other one integrity error.
pub fn check_series_completeness(
    view: &SeriesView,
    instruments: &[Instrument],
    deals: &[Deal],
    eval: Date,
    waivers: &[Waiver],
    warnings: &mut Vec<String>,
    errors: &mut Vec<String>,
)
    requires
        eval@ < max_day_number(),
    ensures
        exists|l: Seq<(String, Date)>|
            #![trigger is_inception_list(l, deals@, instruments@)]
            is_inception_list(l, deals@, instruments@) && texts(final(warnings)@) == texts(
                old(warnings)@,
            ) + series_findings(*view, waivers@, eval@, l).0 && texts(final(errors)@) == texts(
                old(errors)@,
            ) + series_findings(*view, waivers@, eval@, l).1,
{
    let incs = inceptions(instruments, deals);
    let ghost w0 = texts(warnings@);
    let ghost e0 = texts(errors@);
    let mut i: usize = 0;
    while i < incs.len()
        invariant
            i <= incs@.len(),
            eval@ < max_day_number(),
            texts(warnings@) == w0 + series_findings(*view, waivers@, eval@, incs@.take(i as int)).0,
            texts(errors@) == e0 + series_findings(*view, waivers@, eval@, incs@.take(i as int)).1,
        decreases incs.len() - i,
    {
        proof {
            assert(incs@.take(i + 1).drop_last() =~= incs@.take(i as int));
            assert(incs@.take(i + 1).last() == incs@[i as int]);
        }
        let (id, first) = (&incs[i].0, incs[i].1);
        let runs = gap_runs(view, id, first, eval, waivers);
        emit_runs(id, &runs, waivers, warnings, errors);
        proof {
            let (w, e) = series_findings(*view, waivers@, eval@, incs@.take(i as int));
            let (w2, e2) = run_findings(
                id@,
                waivers@,
                runs_through(*view, id@, waivers@, first@, eval@),
            );
            assert(w0 + w + w2 =~= w0 + (w + w2));
            assert(e0 + e + e2 =~= e0 + (e + e2));
        }
        i = i + 1;
    }
    proof {
        assert(incs@.take(incs@.len() as int) =~= incs@);
    }
}

/// The text of a configuration error; `None` for other errors.
pub open spec fn config_error_text(e: crate::error::Error) -> Option<Seq<char>> {
    match e {
        crate::error::Error::Config(m) => Some(m@),
        _ => None,
    }
}

/// The ids of `instruments` are distinct.
pub open spec fn ids_distinct(instruments: Seq<Instrument>) -> bool {
    forall|i: int, j: int|
        0 <= i < j < instruments.len() ==> spec_id(#[trigger] instruments[i]) != spec_id(
            #[trigger] instruments[j],
        )
}

/// Text of the error for an instrument id that occurs twice.
pub open spec fn duplicate_instrument_message(id: Seq<char>) -> Seq<char> {
    "duplicate instrument ID '"@ + id + "'"@
}

/// Instrument ids must be distinct: the error names the first id (in
/// order) that repeats an earlier one.
pub fn check_instrument_ids(instruments: &[Instrument]) -> (r: crate::error::Result<()>)
    ensures
        r is Ok <==> ids_distinct(instruments@),
        r matches Err(e) ==> instrument_id_failure(instruments@, e),
{
    let mut j: usize = 0;
    while j < instruments.len()
        invariant
            j <= instruments@.len(),
            forall|a: int, b: int|
                0 <= a < b < j ==> spec_id(#[trigger] instruments@[a]) != spec_id(
                    #[trigger] instruments@[b],
                ),
        decreases instruments.len() - j,
    {
        let mut i: usize = 0;
        while i < j
            invariant
                i <= j < instruments@.len(),
                forall|a: int, b: int|
                    0 <= a < b < j ==> spec_id(#[trigger] instruments@[a]) != spec_id(
                        #[trigger] instruments@[b],
                    ),
                forall|a: int| 0 <= a < i ==> spec_id(#[trigger] instruments@[a]) != spec_id(
                    instruments@[j as int],
                ),
            decreases j - i,
        {
            if *instruments[i].id() == *instruments[j].id() {
                proof {
                    reveal_strlit("duplicate instrument ID '");
                    reveal_strlit("'");
                    assert(0 <= i < j < instruments@.len() && spec_id(instruments@[i as int])
                        == spec_id(instruments@[j as int]));
                }
                return Err(
                    crate::error::Error::Config(
                        String::from_str("duplicate instrument ID '").concat(
                            instruments[j].id().as_str(),
                        ).concat("'"),
                    ),
                );
            }
            i = i + 1;
        }
        j = j + 1;
    }
    Ok(())
}

/// The id of a deal.
pub open spec fn deal_key(d: Deal) -> Seq<char> {
    d.id@
}

/// The ids of `deals` are distinct.
pub open spec fn deal_ids_distinct(deals: Seq<Deal>) -> bool {
    forall|i: int, j: int|
        0 <= i < j < deals.len() ==> deal_key(#[trigger] deals[i]) != deal_key(#[trigger] deals[j])
}

/// Deal ids must be distinct: the error names the first id (in order)
/// that repeats an earlier one.
pub fn check_deal_ids(deals: &[Deal]) -> (r: crate::error::Result<()>)
    ensures
        r is Ok <==> deal_ids_distinct(deals@),
        r matches Err(e) ==> deal_id_failure(deals@, e),
{
    let mut j: usize = 0;
    while j < deals.len()
        invariant
            j <= deals@.len(),
            forall|a: int, b: int|
                0 <= a < b < j ==> deal_key(#[trigger] deals@[a]) != deal_key(#[trigger] deals@[b]),
        decreases deals.len() - j,
    {
        let mut i: usize = 0;
        while i < j
            invariant
                i <= j < deals@.len(),
                forall|a: int, b: int|
                    0 <= a < b < j ==> deal_key(#[trigger] deals@[a]) != deal_key(#[trigger] deals@[b]),
                forall|a: int| 0 <= a < i ==> deal_key(#[trigger] deals@[a]) != deal_key(deals@[j as int]),
            decreases j - i,
        {
            if deals[i].id == deals[j].id {
                proof {
                    reveal_strlit("duplicate deal ID '");
                    reveal_strlit("'");
                    assert(0 <= i < j < deals@.len() && deal_key(deals@[i as int]) == deal_key(
                        deals@[j as int],
                    ));
                }
                return Err(
                    crate::error::Error::Config(
                        String::from_str("duplicate deal ID '").concat(deals[j].id.as_str()).concat(
                            "'",
                        ),
                    ),
                );
            }
            i = i + 1;
        }
        j = j + 1;
    }
    Ok(())
}

/// Every deal must reference a known instrument: the error names the
/// first deal (in order) that does not.
pub fn check_deal_instruments(deals: &[Deal], instruments: &[Instrument]) -> (r: crate::error::Result<
    (),
>)
    ensures
        r is Ok <==> deals_known(deals@, instruments@),
        r matches Err(e) ==> unknown_instrument_failure(deals@, instruments@, e),
{
    let mut k: usize = 0;
    while k < deals.len()
        invariant
            k <= deals@.len(),
            forall|a: int|
                0 <= a < k ==> instrument_lookup(instruments@, (#[trigger] deals@[a]).instrument_id@) is Some,
        decreases deals.len() - k,
    {
        if find_instrument(instruments, &deals[k].instrument_id).is_none() {
            proof {
                reveal_strlit("deal '");
                reveal_strlit("' references unknown instrument '");
                reveal_strlit("'");
            }
            return Err(
                crate::error::Error::Config(
                    String::from_str("deal '").concat(deals[k].id.as_str()).concat(
                        "' references unknown instrument '",
                    ).concat(deals[k].instrument_id.as_str()).concat("'"),
                ),
            );
        }
        k = k + 1;
    }
    Ok(())
}

/// Why a proxy-mark pair is not valid policy, if it is not: the lookalike
/// must be a known uncleared instrument and its twin a known cleared one.
pub open spec fn proxy_problem(instruments: Seq<Instrument>, id: Seq<char>, twin: Seq<char>) -> Option<
    Seq<char>,
> {
    match instrument_lookup(instruments, id) {
        None => Some("proxy_marks: unknown instrument '"@ + id + "'"@),
        Some(inst) => if spec_clearing(inst) != Some(ClearingStatus::Uncleared) {
            Some("proxy_marks: '"@ + id + "' is not uncleared \u{2014} it marks at its own settle"@)
        } else {
            match instrument_lookup(instruments, twin) {
                None => Some("proxy_marks: '"@ + id + "' proxies unknown instrument '"@ + twin + "'"@),
                Some(t) => if spec_clearing(t) != Some(ClearingStatus::Cleared) {
                    Some(
                        "proxy_marks: twin '"@ + twin + "' of '"@ + id
                            + "' is not cleared \u{2014} a proxy mark borrows an official settle"@,
                    )
                } else {
                    None
                },
            }
        },
    }
}

/// The proxy-mark policy is part of the book's definition: a broken pair
/// is a configuration error naming the first broken pair and what is
/// wrong with it.
pub fn check_proxy_marks(proxies: &ProxyMarks, instruments: &[Instrument]) -> (r:
    crate::error::Result<()>)
    ensures
        r is Ok <==> proxies_valid(proxies@, instruments@),
        r matches Err(e) ==> proxy_failure(proxies@, instruments@, e),
{
    proof {
        reveal_strlit("proxy_marks: unknown instrument '");
        reveal_strlit("'");
        reveal_strlit("proxy_marks: '");
        reveal_strlit("' is not uncleared \u{2014} it marks at its own settle");
        reveal_strlit("' proxies unknown instrument '");
        reveal_strlit("proxy_marks: twin '");
        reveal_strlit("' of '");
        reveal_strlit("' is not cleared \u{2014} a proxy mark borrows an official settle");
    }
    let mut k: usize = 0;
    while k < proxies.len()
        invariant
            k <= proxies@.len(),
            forall|a: int|
                0 <= a < k ==> proxy_problem(
                    instruments@,
                    (#[trigger] proxies@[a]).0@,
                    proxies@[a].1@,
                ) is None,
        decreases proxies.len() - k,
    {
        let id = &proxies[k].0;
        let twin = &proxies[k].1;
        match find_instrument(instruments, id) {
            None => {
                return Err(
                    crate::error::Error::Config(
                        String::from_str("proxy_marks: unknown instrument '").concat(id.as_str()).concat(
                            "'",
                        ),
                    ),
                );
            },
            Some(i) => {
                match instruments[i].clearing() {
                    Some(ClearingStatus::Uncleared) => {},
                    _ => {
                        return Err(
                            crate::error::Error::Config(
                                String::from_str("proxy_marks: '").concat(id.as_str()).concat(
                                    "' is not uncleared \u{2014} it marks at its own settle",
                                ),
                            ),
                        );
                    },
                }
                match find_instrument(instruments, twin) {
                    None => {
                        return Err(
                            crate::error::Error::Config(
                                String::from_str("proxy_marks: '").concat(id.as_str()).concat(
                                    "' proxies unknown instrument '",
                                ).concat(twin.as_str()).concat("'"),
                            ),
                        );
                    },
                    Some(t) => {
                        match instruments[t].clearing() {
                            Some(ClearingStatus::Cleared) => {},
                            _ => {
                                return Err(
                                    crate::error::Error::Config(
                                        String::from_str("proxy_marks: twin '").concat(
                                            twin.as_str(),
                                        ).concat("' of '").concat(id.as_str()).concat(
                                            "' is not cleared \u{2014} a proxy mark borrows an official settle",
                                        ),
                                    ),
                                );
                            },
                        }
                    },
                }
            },
        }
        k = k + 1;
    }
    Ok(())
}

/// `l` lists the ids of `instruments` sorted, each with the position of
/// its instrument.
pub open spec fn is_sorted_index(l: Seq<(String, usize)>, instruments: Seq<Instrument>) -> bool {
    &&& keys_sorted(l)
    &&& l.len() == instruments.len()
    &&& forall|j: int|
        0 <= j < l.len() ==> (#[trigger] l[j]).1 < instruments.len() && spec_id(
            instruments[l[j].1 as int],
        ) == l[j].0@
    &&& forall|k: int|
        0 <= k < instruments.len() ==> has_key(l, spec_id(#[trigger] instruments[k]))
}

/// The instruments' ids in sorted order, with their positions.
pub(crate) fn sorted_index(instruments: &[Instrument]) -> (r: Vec<(String, usize)>)
    requires
        ids_distinct(instruments@),
    ensures
        is_sorted_index(r@, instruments@),
{
    let mut l: Vec<(String, usize)> = Vec::new();
    let mut i: usize = 0;
    while i < instruments.len()
        invariant
            i <= instruments@.len(),
            ids_distinct(instruments@),
            keys_sorted(l@),
            l@.len() == i,
            forall|j: int|
                0 <= j < l@.len() ==> (#[trigger] l@[j]).1 < i && spec_id(
                    instruments@[l@[j].1 as int],
                ) == l@[j].0@,
            forall|k: int| 0 <= k < i ==> has_key(l@, spec_id(#[trigger] instruments@[k])),
        decreases instruments.len() - i,
    {
        let id = instruments[i].id();
        let p = key_slot(&l, id);
        proof {
            lemma_slot_finds(l@, p as int, id@);
            if has_key(l@, id@) {
                let j = choose|j: int| 0 <= j < l@.len() && #[trigger] l@[j].0@ == id@;
                assert(spec_id(instruments@[l@[j].1 as int]) == spec_id(instruments@[i as int]));
                assert(false);
            }
        }
        let ghost old_l = l@;
        l.insert(p, (id.clone(), i));
        proof {
            assert(l@ =~= old_l.insert(p as int, l@[p as int]));
            lemma_insert_at_slot(old_l, p as int, l@[p as int]);
            assert forall|j: int| 0 <= j < l@.len() implies (#[trigger] l@[j]).1 < i + 1 && spec_id(
                instruments@[l@[j].1 as int],
            ) == l@[j].0@ by {
                if j < p {
                    assert(l@[j] == old_l[j]);
                } else if j > p {
                    assert(l@[j] == old_l[j - 1]);
                }
            }
            assert forall|k: int| 0 <= k < i + 1 implies has_key(
                l@,
                spec_id(#[trigger] instruments@[k]),
            ) by {
                if k < i {
                    assert(has_key(old_l, spec_id(instruments@[k])));
                }
            }
        }
        i = i + 1;
    }
    l
}

/// Calendars `a` and `b` are equal field by field (holiday weights are
/// compared by their bit patterns).
pub open spec fn same_calendar(a: Calendar, b: Calendar) -> bool
    decreases a,
{
    match (a, b) {
        (Calendar::EveryDay, Calendar::EveryDay) => true,
        (Calendar::Weekday, Calendar::Weekday) => true,
        (
            Calendar::WeekdayAndHoliday { name: n1, holidays: h1 },
            Calendar::WeekdayAndHoliday { name: n2, holidays: h2 },
        ) => n1@ == n2@ && h1@ == h2@,
        (
            Calendar::Volatility { name: n1, calendar: c1, holiday_weight: w1 },
            Calendar::Volatility { name: n2, calendar: c2, holiday_weight: w2 },
        ) => n1@ == n2@ && w1 == w2 && same_calendar(*c1, *c2),
        _ => false,
    }
}

/// Date rules `a` and `b` are equal field by field.
pub open spec fn same_rule(a: DateRule, b: DateRule) -> bool {
    match (a, b) {
        (DateRule::Null, DateRule::Null) => true,
        (
            DateRule::BusinessDays { calendar: c1, step: s1, slip_forward: f1 },
            DateRule::BusinessDays { calendar: c2, step: s2, slip_forward: f2 },
        ) => s1 == s2 && f1 == f2 && same_calendar(c1, c2),
        (
            DateRule::ModifiedFollowing { calendar: c1 },
            DateRule::ModifiedFollowing { calendar: c2 },
        ) => same_calendar(c1, c2),
        _ => false,
    }
}

/// Currencies `a` and `b` are equal field by field.
pub open spec fn same_currency(a: Currency, b: Currency) -> bool {
    a.id@ == b.id@ && a.day_count == b.day_count && same_rule(a.settlement, b.settlement)
}

fn dates_equal(a: &Vec<Date>, b: &Vec<Date>) -> (r: bool)
    ensures
        r == (a@ == b@),
{
    if a.len() != b.len() {
        return false;
    }
    let mut i: usize = 0;
    while i < a.len()
        invariant
            i <= a@.len(),
            a@.len() == b@.len(),
            forall|k: int| 0 <= k < i ==> a@[k] == b@[k],
        decreases a.len() - i,
    {
        if !a[i].same_day(&b[i]) {
            return false;
        }
        i = i + 1;
    }
    proof {
        assert(a@ =~= b@);
    }
    true
}

fn calendars_equal(a: &Calendar, b: &Calendar) -> (r: bool)
    ensures
        r == same_calendar(*a, *b),
    decreases a,
{
    match (a, b) {
        (Calendar::EveryDay, Calendar::EveryDay) => true,
        (Calendar::Weekday, Calendar::Weekday) => true,
        (
            Calendar::WeekdayAndHoliday { name: n1, holidays: h1 },
            Calendar::WeekdayAndHoliday { name: n2, holidays: h2 },
        ) => *n1 == *n2 && dates_equal(h1, h2),
        (
            Calendar::Volatility { name: n1, calendar: c1, holiday_weight: w1 },
            Calendar::Volatility { name: n2, calendar: c2, holiday_weight: w2 },
        ) => {
            let i1: &Calendar = c1;
            let i2: &Calendar = c2;
            *n1 == *n2 && *w1 == *w2 && calendars_equal(i1, i2)
        },
        _ => false,
    }
}

fn rules_equal(a: &DateRule, b: &DateRule) -> (r: bool)
    ensures
        r == same_rule(*a, *b),
{
    match (a, b) {
        (DateRule::Null, DateRule::Null) => true,
        (
            DateRule::BusinessDays { calendar: c1, step: s1, slip_forward: f1 },
            DateRule::BusinessDays { calendar: c2, step: s2, slip_forward: f2 },
        ) => *s1 == *s2 && *f1 == *f2 && calendars_equal(c1, c2),
        (
            DateRule::ModifiedFollowing { calendar: c1 },
            DateRule::ModifiedFollowing { calendar: c2 },
        ) => calendars_equal(c1, c2),
        _ => false,
    }
}

/// True if the currencies agree in every field.
pub fn currencies_equal(a: &Currency, b: &Currency) -> (r: bool)
    ensures
        r == same_currency(*a, *b),
{
    a.id == b.id && a.day_count == b.day_count && rules_equal(&a.settlement, &b.settlement)
}

/// The instrument at position `t` of the sorted index `l`.
pub open spec fn at(l: Seq<(String, usize)>, instruments: Seq<Instrument>, t: int) -> Instrument {
    instruments[l[t].1 as int]
}

/// The currency of an instrument.
pub open spec fn currency_of(inst: Instrument) -> Currency {
    match inst {
        Instrument::Future(f) => *f.currency,
        Instrument::EuropeanOption(o) => *o.currency,
        Instrument::Equity(e) => *e.currency,
        Instrument::Payment(p) => *p.currency,
        Instrument::Swap(s) => *s.currency,
        Instrument::Bond(b) => *b.currency,
        Instrument::FxForward(x) => *x.quote_currency,
        Instrument::Basket(b) => *b.currency,
    }
}

/// Position (in sorted order, below `n`) of the first instrument whose
/// currency has id `cid`.
pub open spec fn first_with_currency(
    l: Seq<(String, usize)>,
    instruments: Seq<Instrument>,
    n: int,
    cid: Seq<char>,
) -> Option<int>
    decreases n,
{
    if n <= 0 {
        None
    } else {
        match first_with_currency(l, instruments, n - 1, cid) {
            Some(s) => Some(s),
            None => if currency_of(at(l, instruments, n - 1)).id@ == cid {
                Some(n - 1)
            } else {
                None
            },
        }
    }
}

/// Warnings for the instrument at sorted position `t`: a currency that an
/// earlier instrument (the first with that currency id) defines
/// differently, and an option whose underlying is unknown or not a future
/// (its contract size would silently default to 1).
pub open spec fn instrument_warnings(l: Seq<(String, usize)>, instruments: Seq<Instrument>, t: int) -> Seq<
    Seq<char>,
> {
    let inst = at(l, instruments, t);
    let id = spec_id(inst);
    let ccy = currency_of(inst);
    let ccy_warning = match first_with_currency(l, instruments, t, ccy.id@) {
        Some(s) => if !same_currency(currency_of(at(l, instruments, s)), ccy) {
            seq![
                "currency '"@ + ccy.id@ + "' defined inconsistently: instrument '"@ + id
                    + "' disagrees with '"@ + spec_id(at(l, instruments, s)) + "'"@,
            ]
        } else {
            Seq::empty()
        },
        None => Seq::empty(),
    };
    let option_warning = match inst {
        Instrument::EuropeanOption(o) => match instrument_lookup(instruments, o.underlying@) {
            None => seq!["option '"@ + id + "': unknown underlying '"@ + o.underlying@ + "'"@],
            Some(Instrument::Future(_)) => Seq::empty(),
            Some(_) => seq![
                "option '"@ + id + "': underlying '"@ + o.underlying@
                    + "' is not a future \u{2014} contract_size defaults to 1"@,
            ],
        },
        _ => Seq::empty(),
    };
    ccy_warning + option_warning
}

/// The book warnings for the first `n` instruments in sorted order.
pub open spec fn book_warnings_upto(l: Seq<(String, usize)>, instruments: Seq<Instrument>, n: int) -> Seq<
    Seq<char>,
>
    decreases n,
{
    if n <= 0 {
        Seq::empty()
    } else {
        book_warnings_upto(l, instruments, n - 1) + instrument_warnings(l, instruments, n - 1)
    }
}

/// Once found, the first position with a currency id stays the first.
proof fn lemma_first_currency_stable(
    l: Seq<(String, usize)>,
    instruments: Seq<Instrument>,
    n: int,
    m: int,
    cid: Seq<char>,
)
    requires
        0 <= n <= m,
        first_with_currency(l, instruments, n, cid) is Some,
    ensures
        first_with_currency(l, instruments, m, cid) == first_with_currency(l, instruments, n, cid),
    decreases m - n,
{
    if m > n {
        lemma_first_currency_stable(l, instruments, n, m - 1, cid);
    }
}

/// The first position below `t` in `l` whose instrument's currency has
/// the id of the instrument at `t`.
fn first_currency_position(l: &Vec<(String, usize)>, instruments: &[Instrument], t: usize) -> (r:
    Option<usize>)
    requires
        is_sorted_index(l@, instruments@),
        t < l@.len(),
    ensures
        r matches Some(s) ==> s < t && first_with_currency(
            l@,
            instruments@,
            t as int,
            currency_of(at(l@, instruments@, t as int)).id@,
        ) == Some(s as int),
        r is None ==> first_with_currency(
            l@,
            instruments@,
            t as int,
            currency_of(at(l@, instruments@, t as int)).id@,
        ) is None,
{
    let cid = &instruments[l[t].1].currency().id;
    let mut s: usize = 0;
    while s < t
        invariant
            s <= t < l@.len(),
            is_sorted_index(l@, instruments@),
            cid@ == currency_of(at(l@, instruments@, t as int)).id@,
            first_with_currency(l@, instruments@, s as int, cid@) is None,
        decreases t - s,
    {
        assert(l@[s as int].1 < instruments@.len());
        let found = instruments[l[s].1].currency().id == *cid;
        proof {
            assert(found == (currency_of(at(l@, instruments@, s as int)).id@ == cid@));
            assert(first_with_currency(l@, instruments@, s + 1, cid@) == (if found {
                Some(s as int)
            } else {
                None
            }));
        }
        if found {
            proof {
                lemma_first_currency_stable(l@, instruments@, s + 1, t as int, cid@);
            }
            return Some(s);
        }
        s = s + 1;
    }
    None
}

/// Advisory warnings about the book, in instrument-id order: currencies
/// defined inconsistently across instruments, and options whose contract
/// size cannot come from an underlying future.
pub fn book_warnings(instruments: &[Instrument]) -> (r: Vec<String>)
    requires
        ids_distinct(instruments@),
    ensures
        exists|l: Seq<(String, usize)>|
            #![trigger is_sorted_index(l, instruments@)]
            is_sorted_index(l, instruments@) && texts(r@) == book_warnings_upto(
                l,
                instruments@,
                instruments@.len() as int,
            ),
{
    proof {
        reveal_strlit("currency '");
        reveal_strlit("' defined inconsistently: instrument '");
        reveal_strlit("' disagrees with '");
        reveal_strlit("'");
        reveal_strlit("option '");
        reveal_strlit("': unknown underlying '");
        reveal_strlit("': underlying '");
        reveal_strlit("' is not a future \u{2014} contract_size defaults to 1");
    }
    let l = sorted_index(instruments);
    let mut out: Vec<String> = Vec::new();
    let mut t: usize = 0;
    while t < l.len()
        invariant
            t <= l@.len(),
            is_sorted_index(l@, instruments@),
            texts(out@) == book_warnings_upto(l@, instruments@, t as int),
        decreases l.len() - t,
    {
        assert(l@[t as int].1 < instruments@.len());
        let inst = &instruments[l[t].1];
        let id = inst.id();
        let ccy = inst.currency();
        let ghost before = texts(out@);
        match first_currency_position(&l, instruments, t) {
            Some(s) => {
                assert(l@[s as int].1 < instruments@.len());
                let first = &instruments[l[s].1];
                if !currencies_equal(first.currency(), ccy) {
                    let w = String::from_str("currency '").concat(ccy.id.as_str()).concat(
                        "' defined inconsistently: instrument '",
                    ).concat(id.as_str()).concat("' disagrees with '").concat(
                        first.id().as_str(),
                    ).concat("'");
                    proof {
                        lemma_texts_push(out@, w);
                    }
                    out.push(w);
                }
            },
            None => {},
        }
        let ghost mid = texts(out@);
        match inst {
            Instrument::EuropeanOption(o) => match find_instrument(instruments, &o.underlying) {
                None => {
                    let w = String::from_str("option '").concat(id.as_str()).concat(
                        "': unknown underlying '",
                    ).concat(o.underlying.as_str()).concat("'");
                    proof {
                        lemma_texts_push(out@, w);
                    }
                    out.push(w);
                },
                Some(u) => match &instruments[u] {
                    Instrument::Future(_) => {},
                    _ => {
                        let w = String::from_str("option '").concat(id.as_str()).concat(
                            "': underlying '",
                        ).concat(o.underlying.as_str()).concat(
                            "' is not a future \u{2014} contract_size defaults to 1",
                        );
                        proof {
                            lemma_texts_push(out@, w);
                        }
                        out.push(w);
                    },
                },
            },
            _ => {},
        }
        proof {
            assert(texts(out@) =~= before + instrument_warnings(l@, instruments@, t as int));
        }
        t = t + 1;
    }
    out
}

/// What the consistency checks read of the valuation day's market data.
#[derive(Clone, Debug)]
pub struct MarketFacts {
    pub valuation_date: Date,
    /// Instruments with a settlement price.
    pub settled: Vec<String>,
    /// Instruments with a market price.
    pub priced: Vec<String>,
    /// Currencies with a discount curve.
    pub curves: Vec<String>,
    /// Underlyings with a vol surface, in the market data's order.
    pub surfaces: Vec<String>,
    /// The static-arbitrage findings of each vol surface, by underlying.
    pub no_arb_findings: Vec<(String, Vec<String>)>,
}

/// Some deal of `deals` is in instrument `id`.
pub open spec fn dealt_in(deals: Seq<Deal>, id: Seq<char>) -> bool {
    exists|k: int| 0 <= k < deals.len() && #[trigger] deals[k].instrument_id@ == id
}

/// Warnings and errors of routing `finding` (see [`require`]).
pub open spec fn routed(dealt: bool, waived: bool, finding: Seq<char>) -> (Seq<Seq<char>>, Seq<Seq<char>>) {
    if dealt && !waived {
        (Seq::empty(), seq![finding])
    } else if dealt {
        (seq!["waived: "@ + finding], Seq::empty())
    } else {
        (seq![finding], Seq::empty())
    }
}

/// Pairwise concatenation of (warnings, errors).
pub open spec fn both(
    a: (Seq<Seq<char>>, Seq<Seq<char>>),
    b: (Seq<Seq<char>>, Seq<Seq<char>>),
) -> (Seq<Seq<char>>, Seq<Seq<char>>) {
    (a.0 + b.0, a.1 + b.1)
}

/// No findings.
pub open spec fn none_found() -> (Seq<Seq<char>>, Seq<Seq<char>>) {
    (Seq::empty(), Seq::empty())
}

/// The underlying of an option.
pub open spec fn option_underlying(inst: Instrument) -> Option<Seq<char>> {
    match inst {
        Instrument::EuropeanOption(o) => Some(o.underlying@),
        _ => None,
    }
}

/// An instrument has matured before the day numbered `day`.
pub open spec fn expired_on(inst: Instrument, day: int) -> bool {
    match crate::instruments::spec_maturity(inst) {
        Some(m) => day > m,
        None => false,
    }
}

/// An option marks to model: uncleared and not proxied.
pub open spec fn model_marked(inst: Instrument, proxies: Seq<(String, String)>) -> bool {
    spec_clearing(inst) == Some(ClearingStatus::Uncleared) && proxy_twin(proxies, spec_id(inst)) is None
}

/// A missing discount curve for the instrument's currency is a warning.
pub open spec fn curve_finding(inst: Instrument, facts: MarketFacts) -> (Seq<Seq<char>>, Seq<Seq<char>>) {
    let ccy = currency_of(inst).id@;
    if lists_id(facts.curves@, ccy) {
        none_found()
    } else {
        (
            seq!["instrument '"@ + spec_id(inst) + "': no discount curve for currency '"@ + ccy + "'"@],
            Seq::empty(),
        )
    }
}

/// A cleared instrument needs its settle (its official mark).
pub open spec fn settle_finding(inst: Instrument, dealt: bool, facts: MarketFacts, waived: bool) -> (
    Seq<Seq<char>>,
    Seq<Seq<char>>,
) {
    let id = spec_id(inst);
    if spec_clearing(inst) == Some(ClearingStatus::Cleared) && !lists_id(facts.settled@, id) {
        routed(dealt, waived, "instrument '"@ + id + "': cleared but no settlement price (official mark)"@)
    } else {
        none_found()
    }
}

/// A proxied instrument needs its twin's settle (its official mark).
pub open spec fn twin_finding(
    inst: Instrument,
    dealt: bool,
    proxies: Seq<(String, String)>,
    facts: MarketFacts,
    waived: bool,
) -> (Seq<Seq<char>>, Seq<Seq<char>>) {
    let id = spec_id(inst);
    match proxy_twin(proxies, id) {
        Some(t) => if !lists_id(facts.settled@, t) {
            routed(
                dealt,
                waived,
                "instrument '"@ + id + "': proxy twin '"@ + t + "' has no settlement price (official mark)"@,
            )
        } else {
            none_found()
        },
        None => none_found(),
    }
}

/// A live model-marked option needs a vol surface; a live option that
/// does not mark to model only draws a warning on the risk tier; any other
/// instrument needs a settle once expired (unless cleared, already
/// required) and a market price while live.
pub open spec fn price_finding(
    inst: Instrument,
    dealt: bool,
    proxies: Seq<(String, String)>,
    facts: MarketFacts,
    waived: bool,
    risk_tier: bool,
) -> (Seq<Seq<char>>, Seq<Seq<char>>) {
    let id = spec_id(inst);
    let expired = expired_on(inst, facts.valuation_date@);
    match option_underlying(inst) {
        Some(u) => if !expired && !lists_id(facts.surfaces@, u) {
            if model_marked(inst, proxies) {
                routed(
                    dealt,
                    waived,
                    "option '"@ + id + "': uncleared and model-marked, but no vol surface for underlying '"@
                        + u + "'"@,
                )
            } else if risk_tier {
                (seq!["option '"@ + id + "': no vol surface for underlying '"@ + u + "'"@], Seq::empty())
            } else {
                none_found()
            }
        } else {
            none_found()
        },
        None => if expired {
            if spec_clearing(inst) != Some(ClearingStatus::Cleared) && !lists_id(facts.settled@, id) {
                (seq!["instrument '"@ + id + "': expired but no settlement price"@], Seq::empty())
            } else {
                none_found()
            }
        } else if !lists_id(facts.priced@, id) {
            (seq!["instrument '"@ + id + "': no market price"@], Seq::empty())
        } else {
            none_found()
        },
    }
}

/// The findings for one instrument against the valuation day's market
/// data, in order: curve, settle, twin's settle, surface or price.
pub open spec fn market_findings(
    inst: Instrument,
    deals: Seq<Deal>,
    proxies: Seq<(String, String)>,
    facts: MarketFacts,
    waived: bool,
    risk_tier: bool,
) -> (Seq<Seq<char>>, Seq<Seq<char>>) {
    let dealt = dealt_in(deals, spec_id(inst));
    both(
        both(
            both(curve_finding(inst, facts), settle_finding(inst, dealt, facts, waived)),
            twin_finding(inst, dealt, proxies, facts, waived),
        ),
        price_finding(inst, dealt, proxies, facts, waived, risk_tier),
    )
}

fn dealt_exec(deals: &[Deal], id: &String) -> (r: bool)
    ensures
        r == dealt_in(deals@, id@),
{
    let mut k: usize = 0;
    while k < deals.len()
        invariant
            k <= deals@.len(),
            forall|a: int| 0 <= a < k ==> (#[trigger] deals@[a]).instrument_id@ != id@,
        decreases deals.len() - k,
    {
        if deals[k].instrument_id == *id {
            proof {
                assert(deals@[k as int].instrument_id@ == id@);
            }
            return true;
        }
        k = k + 1;
    }
    false
}

fn expired_exec(inst: &Instrument, date: Date) -> (r: bool)
    ensures
        r == expired_on(*inst, date@),
{
    match inst.maturity() {
        Some(m) => m.is_before(&date),
        None => false,
    }
}

/// Route `finding` into `warnings` or `errors` (see [`require`]).
fn route(
    dealt: bool,
    waived: bool,
    finding: String,
    warnings: &mut Vec<String>,
    errors: &mut Vec<String>,
)
    ensures
        texts(final(warnings)@) == texts(old(warnings)@) + routed(dealt, waived, finding@).0,
        texts(final(errors)@) == texts(old(errors)@) + routed(dealt, waived, finding@).1,
{
    let ghost f = finding@;
    require(dealt, waived, finding, warnings, errors);
    proof {
        assert(texts(old(warnings)@) + Seq::<Seq<char>>::empty() =~= texts(old(warnings)@));
        assert(texts(old(errors)@) + Seq::<Seq<char>>::empty() =~= texts(old(errors)@));
        assert(texts(old(warnings)@).push(f) =~= texts(old(warnings)@) + seq![f]);
        assert(texts(old(errors)@).push(f) =~= texts(old(errors)@) + seq![f]);
        assert(texts(old(warnings)@).push("waived: "@ + f) =~= texts(old(warnings)@) + seq![
            "waived: "@ + f,
        ]);
    }
}

/// Append one warning.
fn warn(warnings: &mut Vec<String>, w: String)
    ensures
        texts(final(warnings)@) == texts(old(warnings)@) + seq![w@],
{
    proof {
        lemma_texts_push(warnings@, w);
        assert(texts(old(warnings)@).push(w@) =~= texts(old(warnings)@) + seq![w@]);
    }
    warnings.push(w);
}

/// `(warnings, errors)` grew by `f`.
pub open spec fn grew(
    w0: Seq<Seq<char>>,
    e0: Seq<Seq<char>>,
    w: Seq<String>,
    e: Seq<String>,
    f: (Seq<Seq<char>>, Seq<Seq<char>>),
) -> bool {
    texts(w) == w0 + f.0 && texts(e) == e0 + f.1
}

proof fn lemma_grew_none(w: Seq<String>, e: Seq<String>)
    ensures
        grew(texts(w), texts(e), w, e, none_found()),
{
    assert(texts(w) + Seq::<Seq<char>>::empty() =~= texts(w));
    assert(texts(e) + Seq::<Seq<char>>::empty() =~= texts(e));
}

fn curve_check(inst: &Instrument, facts: &MarketFacts, warnings: &mut Vec<String>)
    ensures
        texts(final(warnings)@) == texts(old(warnings)@) + curve_finding(*inst, *facts).0,
        curve_finding(*inst, *facts).1 == Seq::<Seq<char>>::empty(),
{
    proof {
        reveal_strlit("instrument '");
        reveal_strlit("': no discount curve for currency '");
        reveal_strlit("'");
        assert(texts(warnings@) + Seq::<Seq<char>>::empty() =~= texts(warnings@));
    }
    let ccy = &inst.currency().id;
    if !lists_id_exec(&facts.curves, ccy) {
        warn(
            warnings,
            String::from_str("instrument '").concat(inst.id().as_str()).concat(
                "': no discount curve for currency '",
            ).concat(ccy.as_str()).concat("'"),
        );
    }
}

fn settle_check(
    inst: &Instrument,
    dealt: bool,
    facts: &MarketFacts,
    waived: bool,
    warnings: &mut Vec<String>,
    errors: &mut Vec<String>,
)
    ensures
        grew(
            texts(old(warnings)@),
            texts(old(errors)@),
            final(warnings)@,
            final(errors)@,
            settle_finding(*inst, dealt, *facts, waived),
        ),
{
    proof {
        reveal_strlit("instrument '");
        reveal_strlit("': cleared but no settlement price (official mark)");
        lemma_grew_none(warnings@, errors@);
    }
    let id = inst.id();
    let cleared = match inst.clearing() {
        Some(ClearingStatus::Cleared) => true,
        _ => false,
    };
    if cleared && !lists_id_exec(&facts.settled, id) {
        route(
            dealt,
            waived,
            String::from_str("instrument '").concat(id.as_str()).concat(
                "': cleared but no settlement price (official mark)",
            ),
            warnings,
            errors,
        );
    }
}

fn twin_check(
    inst: &Instrument,
    dealt: bool,
    proxies: &ProxyMarks,
    facts: &MarketFacts,
    waived: bool,
    warnings: &mut Vec<String>,
    errors: &mut Vec<String>,
)
    ensures
        grew(
            texts(old(warnings)@),
            texts(old(errors)@),
            final(warnings)@,
            final(errors)@,
            twin_finding(*inst, dealt, proxies@, *facts, waived),
        ),
{
    proof {
        reveal_strlit("instrument '");
        reveal_strlit("': proxy twin '");
        reveal_strlit("' has no settlement price (official mark)");
        lemma_grew_none(warnings@, errors@);
    }
    let id = inst.id();
    match crate::portfolio::find_proxy(proxies, id.as_str()) {
        Some(twin) => {
            if !lists_id_exec(&facts.settled, twin) {
                route(
                    dealt,
                    waived,
                    String::from_str("instrument '").concat(id.as_str()).concat("': proxy twin '").concat(
                        twin.as_str(),
                    ).concat("' has no settlement price (official mark)"),
                    warnings,
                    errors,
                );
            }
        },
        None => {},
    }
}

fn price_check(
    inst: &Instrument,
    dealt: bool,
    proxies: &ProxyMarks,
    facts: &MarketFacts,
    waived: bool,
    risk_tier: bool,
    warnings: &mut Vec<String>,
    errors: &mut Vec<String>,
)
    ensures
        grew(
            texts(old(warnings)@),
            texts(old(errors)@),
            final(warnings)@,
            final(errors)@,
            price_finding(*inst, dealt, proxies@, *facts, waived, risk_tier),
        ),
{
    proof {
        reveal_strlit("instrument '");
        reveal_strlit("'");
        reveal_strlit("option '");
        reveal_strlit("': uncleared and model-marked, but no vol surface for underlying '");
        reveal_strlit("': no vol surface for underlying '");
        reveal_strlit("': expired but no settlement price");
        reveal_strlit("': no market price");
        lemma_grew_none(warnings@, errors@);
        assert(texts(warnings@) + Seq::<Seq<char>>::empty() =~= texts(warnings@));
    }
    let id = inst.id();
    let expired = expired_exec(inst, facts.valuation_date);
    match inst {
        Instrument::EuropeanOption(o) => {
            if !expired && !lists_id_exec(&facts.surfaces, &o.underlying) {
                let unproxied = crate::portfolio::find_proxy(proxies, id.as_str()).is_none();
                let uncleared = match inst.clearing() {
                    Some(ClearingStatus::Uncleared) => true,
                    _ => false,
                };
                if uncleared && unproxied {
                    route(
                        dealt,
                        waived,
                        String::from_str("option '").concat(id.as_str()).concat(
                            "': uncleared and model-marked, but no vol surface for underlying '",
                        ).concat(o.underlying.as_str()).concat("'"),
                        warnings,
                        errors,
                    );
                } else if risk_tier {
                    warn(
                        warnings,
                        String::from_str("option '").concat(id.as_str()).concat(
                            "': no vol surface for underlying '",
                        ).concat(o.underlying.as_str()).concat("'"),
                    );
                }
            }
        },
        _ => {
            let cleared = match inst.clearing() {
                Some(ClearingStatus::Cleared) => true,
                _ => false,
            };
            if expired {
                if !cleared && !lists_id_exec(&facts.settled, id) {
                    warn(
                        warnings,
                        String::from_str("instrument '").concat(id.as_str()).concat(
                            "': expired but no settlement price",
                        ),
                    );
                }
            } else if !lists_id_exec(&facts.priced, id) {
                warn(
                    warnings,
                    String::from_str("instrument '").concat(id.as_str()).concat("': no market price"),
                );
            }
        },
    }
}

/// Check one instrument against the valuation day's market data.
fn check_instrument_market(
    inst: &Instrument,
    deals: &[Deal],
    proxies: &ProxyMarks,
    facts: &MarketFacts,
    waived: bool,
    risk_tier: bool,
    warnings: &mut Vec<String>,
    errors: &mut Vec<String>,
)
    ensures
        grew(
            texts(old(warnings)@),
            texts(old(errors)@),
            final(warnings)@,
            final(errors)@,
            market_findings(*inst, deals@, proxies@, *facts, waived, risk_tier),
        ),
{
    let ghost w0 = texts(warnings@);
    let ghost e0 = texts(errors@);
    let dealt = dealt_exec(deals, inst.id());
    curve_check(inst, facts, warnings);
    let ghost w1 = texts(warnings@);
    let ghost e1 = texts(errors@);
    settle_check(inst, dealt, facts, waived, warnings, errors);
    let ghost w2 = texts(warnings@);
    let ghost e2 = texts(errors@);
    twin_check(inst, dealt, proxies, facts, waived, warnings, errors);
    let ghost w3 = texts(warnings@);
    let ghost e3 = texts(errors@);
    price_check(inst, dealt, proxies, facts, waived, risk_tier, warnings, errors);
    proof {
        let c = curve_finding(*inst, *facts);
        let st = settle_finding(*inst, dealt, *facts, waived);
        let tw = twin_finding(*inst, dealt, proxies@, *facts, waived);
        let pr = price_finding(*inst, dealt, proxies@, *facts, waived, risk_tier);
        assert(e1 =~= e0 + c.1);
        assert(texts(warnings@) =~= w0 + (c.0 + st.0 + tw.0 + pr.0));
        assert(texts(errors@) =~= e0 + (c.1 + st.1 + tw.1 + pr.1));
    }
}

/// The market findings of the first `n` instruments, in order.
pub open spec fn market_findings_upto(
    instruments: Seq<Instrument>,
    n: int,
    deals: Seq<Deal>,
    proxies: Seq<(String, String)>,
    facts: MarketFacts,
    waived: bool,
    risk_tier: bool,
) -> (Seq<Seq<char>>, Seq<Seq<char>>)
    decreases n,
{
    if n <= 0 {
        none_found()
    } else {
        both(
            market_findings_upto(instruments, n - 1, deals, proxies, facts, waived, risk_tier),
            market_findings(instruments[n - 1], deals, proxies, facts, waived, risk_tier),
        )
    }
}

/// The underlying whose surface model-marks `inst` for books-grade P&L:
/// a dealt, uncleared, unproxied, live option.
pub open spec fn gate_underlying(
    inst: Instrument,
    deals: Seq<Deal>,
    proxies: Seq<(String, String)>,
    day: int,
) -> Option<Seq<char>> {
    if dealt_in(deals, spec_id(inst)) && model_marked(inst, proxies) && !expired_on(inst, day) {
        option_underlying(inst)
    } else {
        None
    }
}

/// The static-arbitrage findings recorded for the surface of `u`.
pub open spec fn surface_findings(list: Seq<(String, Vec<String>)>, u: Seq<char>) -> Option<Seq<String>>
    decreases list.len(),
{
    if list.len() == 0 {
        None
    } else if list[0].0@ == u {
        Some(list[0].1@)
    } else {
        surface_findings(list.drop_first(), u)
    }
}

/// Each finding about the surface of `u` routed as an integrity error of
/// a dealt position (or a warning, when waived).
pub open spec fn surface_gate_findings(
    u: Seq<char>,
    id: Seq<char>,
    findings: Seq<String>,
    waived: bool,
) -> (Seq<Seq<char>>, Seq<Seq<char>>)
    decreases findings.len(),
{
    if findings.len() == 0 {
        none_found()
    } else {
        both(
            surface_gate_findings(u, id, findings.drop_last(), waived),
            routed(
                true,
                waived,
                "vol surface '"@ + u + "' (books-grade, model-marks uncleared '"@ + id + "'): "@
                    + findings.last()@,
            ),
        )
    }
}

/// The no-arbitrage gate for the instrument at `k`: the first instrument
/// gated on an underlying brings the findings of that underlying's surface.
pub open spec fn gate_findings(
    instruments: Seq<Instrument>,
    k: int,
    deals: Seq<Deal>,
    proxies: Seq<(String, String)>,
    facts: MarketFacts,
    waived: bool,
) -> (Seq<Seq<char>>, Seq<Seq<char>>) {
    let day = facts.valuation_date@;
    match gate_underlying(instruments[k], deals, proxies, day) {
        Some(u) => if (forall|j: int|
            0 <= j < k ==> gate_underlying(#[trigger] instruments[j], deals, proxies, day) != Some(u)) {
            match surface_findings(facts.no_arb_findings@, u) {
                Some(fs) => surface_gate_findings(u, spec_id(instruments[k]), fs, waived),
                None => none_found(),
            }
        } else {
            none_found()
        },
        None => none_found(),
    }
}

/// What the no-arbitrage gate reports over the instruments before `n`.
pub open spec fn gate_findings_upto(
    instruments: Seq<Instrument>,
    n: int,
    deals: Seq<Deal>,
    proxies: Seq<(String, String)>,
    facts: MarketFacts,
    waived: bool,
) -> (Seq<Seq<char>>, Seq<Seq<char>>)
    decreases n,
{
    if n <= 0 {
        none_found()
    } else {
        both(
            gate_findings_upto(instruments, n - 1, deals, proxies, facts, waived),
            gate_findings(instruments, n - 1, deals, proxies, facts, waived),
        )
    }
}

fn gate_underlying_exec<'a>(
    inst: &'a Instrument,
    deals: &[Deal],
    proxies: &ProxyMarks,
    date: Date,
) -> (r: Option<&'a String>)
    ensures
        r matches Some(u) ==> gate_underlying(*inst, deals@, proxies@, date@) == Some(u@),
        r is None ==> gate_underlying(*inst, deals@, proxies@, date@) is None,
{
    let id = inst.id();
    let uncleared = match inst.clearing() {
        Some(ClearingStatus::Uncleared) => true,
        _ => false,
    };
    if dealt_exec(deals, id) && uncleared && crate::portfolio::find_proxy(proxies, id.as_str()).is_none()
        && !expired_exec(inst, date) {
        match inst {
            Instrument::EuropeanOption(o) => Some(&o.underlying),
            _ => None,
        }
    } else {
        None
    }
}

fn find_surface_findings<'a>(list: &'a Vec<(String, Vec<String>)>, u: &String) -> (r: Option<
    &'a Vec<String>,
>)
    ensures
        r matches Some(fs) ==> surface_findings(list@, u@) == Some(fs@),
        r is None ==> surface_findings(list@, u@) is None,
{
    let mut i: usize = 0;
    proof {
        assert(list@.skip(0) =~= list@);
    }
    while i < list.len()
        invariant
            i <= list@.len(),
            surface_findings(list@, u@) == surface_findings(list@.skip(i as int), u@),
        decreases list.len() - i,
    {
        proof {
            assert(list@.skip(i as int)[0] == list@[i as int]);
            assert(list@.skip(i as int).drop_first() =~= list@.skip(i + 1));
        }
        if list[i].0 == *u {
            return Some(&list[i].1);
        }
        i = i + 1;
    }
    None
}

/// Route every finding about the surface of `u`.
fn route_surface_findings(
    u: &String,
    id: &String,
    findings: &Vec<String>,
    waived: bool,
    warnings: &mut Vec<String>,
    errors: &mut Vec<String>,
)
    ensures
        grew(
            texts(old(warnings)@),
            texts(old(errors)@),
            final(warnings)@,
            final(errors)@,
            surface_gate_findings(u@, id@, findings@, waived),
        ),
{
    proof {
        reveal_strlit("vol surface '");
        reveal_strlit("' (books-grade, model-marks uncleared '");
        reveal_strlit("'): ");
    }
    let ghost w0 = texts(warnings@);
    let ghost e0 = texts(errors@);
    let mut i: usize = 0;
    proof {
        assert(findings@.take(0) =~= Seq::<String>::empty());
        lemma_grew_none(warnings@, errors@);
    }
    while i < findings.len()
        invariant
            i <= findings@.len(),
            grew(w0, e0, warnings@, errors@, surface_gate_findings(u@, id@, findings@.take(i as int), waived)),
        decreases findings.len() - i,
    {
        proof {
            assert(findings@.take(i + 1).drop_last() =~= findings@.take(i as int));
            assert(findings@.take(i + 1).last() == findings@[i as int]);
        }
        let ghost w1 = texts(warnings@);
        let ghost e1 = texts(errors@);
        route(
            true,
            waived,
            String::from_str("vol surface '").concat(u.as_str()).concat(
                "' (books-grade, model-marks uncleared '",
            ).concat(id.as_str()).concat("'): ").concat(findings[i].as_str()),
            warnings,
            errors,
        );
        proof {
            let prev = surface_gate_findings(u@, id@, findings@.take(i as int), waived);
            let r = routed(
                true,
                waived,
                "vol surface '"@ + u@ + "' (books-grade, model-marks uncleared '"@ + id@ + "'): "@
                    + findings@[i as int]@,
            );
            assert(texts(warnings@) =~= w0 + (prev.0 + r.0));
            assert(texts(errors@) =~= e0 + (prev.1 + r.1));
        }
        i = i + 1;
    }
    proof {
        assert(findings@.take(findings@.len() as int) =~= findings@);
    }
}

/// Some live, model-marked option of `instruments` is written on `u`:
/// its surface is a marking requirement.
pub open spec fn needs_surface(
    instruments: Seq<Instrument>,
    u: Seq<char>,
    proxies: Seq<(String, String)>,
    day: int,
) -> bool {
    exists|k: int|
        0 <= k < instruments.len() && option_underlying(#[trigger] instruments[k]) == Some(u)
            && !expired_on(instruments[k], day) && model_marked(instruments[k], proxies)
}

/// The surfaces of `surfaces` that no position needs for marking, in order.
pub open spec fn unneeded_surfaces(
    surfaces: Seq<String>,
    instruments: Seq<Instrument>,
    proxies: Seq<(String, String)>,
    day: int,
) -> Seq<Seq<char>>
    decreases surfaces.len(),
{
    if surfaces.len() == 0 {
        Seq::empty()
    } else {
        let prev = unneeded_surfaces(surfaces.drop_last(), instruments, proxies, day);
        if needs_surface(instruments, surfaces.last()@, proxies, day) {
            prev
        } else {
            prev.push(surfaces.last()@)
        }
    }
}

/// On the book tier, surfaces that no position needs draw one warning:
/// book data should be vol-free.
pub open spec fn surface_warning(
    instruments: Seq<Instrument>,
    proxies: Seq<(String, String)>,
    facts: MarketFacts,
    risk_tier: bool,
) -> Seq<Seq<char>> {
    let u = unneeded_surfaces(facts.surfaces@, instruments, proxies, facts.valuation_date@);
    if !risk_tier && u.len() > 0 {
        seq![
            "market data carries "@ + crate::text::nat_digits(u.len()) + " vol surface(s) no position needs ("@
                + crate::reports::join(u, ", "@)
                + ") \u{2014} book data should be vol-free; move them to a vol_data file (risk tier)"@,
        ]
    } else {
        Seq::empty()
    }
}

/// All market-dependent findings: per instrument (in the order given),
/// then the no-arbitrage gate, then the book tier's vol-free warning.
pub open spec fn spec_market_checks(
    instruments: Seq<Instrument>,
    deals: Seq<Deal>,
    proxies: Seq<(String, String)>,
    waivers: Seq<Waiver>,
    facts: MarketFacts,
    risk_tier: bool,
) -> (Seq<Seq<char>>, Seq<Seq<char>>) {
    let waived = any_waiver(waivers, facts.valuation_date@);
    let n = instruments.len() as int;
    both(
        both(
            market_findings_upto(instruments, n, deals, proxies, facts, waived, risk_tier),
            gate_findings_upto(instruments, n, deals, proxies, facts, waived),
        ),
        (surface_warning(instruments, proxies, facts, risk_tier), Seq::empty()),
    )
}

fn needs_surface_exec(instruments: &[Instrument], u: &String, proxies: &ProxyMarks, date: Date) -> (r:
    bool)
    ensures
        r == needs_surface(instruments@, u@, proxies@, date@),
{
    let mut k: usize = 0;
    while k < instruments.len()
        invariant
            k <= instruments@.len(),
            forall|a: int|
                0 <= a < k ==> !(option_underlying(#[trigger] instruments@[a]) == Some(u@)
                    && !expired_on(instruments@[a], date@) && model_marked(instruments@[a], proxies@)),
        decreases instruments.len() - k,
    {
        let inst = &instruments[k];
        let hit = match inst {
            Instrument::EuropeanOption(o) => {
                let uncleared = match inst.clearing() {
                    Some(ClearingStatus::Uncleared) => true,
                    _ => false,
                };
                o.underlying == *u && !expired_exec(inst, date) && uncleared
                    && crate::portfolio::find_proxy(proxies, inst.id().as_str()).is_none()
            },
            _ => false,
        };
        if hit {
            return true;
        }
        k = k + 1;
    }
    false
}

/// The market-dependent checks of the book against the valuation day:
/// marking requirements (settles, twins' settles, vol surfaces of
/// model-marked options) are integrity errors for dealt instruments
/// unless a waiver covers the valuation date; everything else is advisory.
/// Instruments are checked in the order given.
pub fn check_market(
    instruments: &[Instrument],
    deals: &[Deal],
    proxies: &ProxyMarks,
    waivers: &[Waiver],
    facts: &MarketFacts,
    risk_tier: bool,
    warnings: &mut Vec<String>,
    errors: &mut Vec<String>,
)
    ensures
        grew(
            texts(old(warnings)@),
            texts(old(errors)@),
            final(warnings)@,
            final(errors)@,
            spec_market_checks(instruments@, deals@, proxies@, waivers@, *facts, risk_tier),
        ),
{
    let ghost w0 = texts(warnings@);
    let ghost e0 = texts(errors@);
    let waived = covering_waiver(waivers, facts.valuation_date).is_some();
    let ghost n = instruments@.len() as int;
    let mut k: usize = 0;
    proof {
        lemma_grew_none(warnings@, errors@);
    }
    while k < instruments.len()
        invariant
            k <= instruments@.len(),
            waived == any_waiver(waivers@, facts.valuation_date@),
            grew(
                w0,
                e0,
                warnings@,
                errors@,
                market_findings_upto(instruments@, k as int, deals@, proxies@, *facts, waived, risk_tier),
            ),
        decreases instruments.len() - k,
    {
        let ghost w1 = texts(warnings@);
        let ghost e1 = texts(errors@);
        check_instrument_market(&instruments[k], deals, proxies, facts, waived, risk_tier, warnings, errors);
        proof {
            let prev = market_findings_upto(instruments@, k as int, deals@, proxies@, *facts, waived, risk_tier);
            let f = market_findings(instruments@[k as int], deals@, proxies@, *facts, waived, risk_tier);
            assert(texts(warnings@) =~= w0 + (prev.0 + f.0));
            assert(texts(errors@) =~= e0 + (prev.1 + f.1));
        }
        k = k + 1;
    }
    let ghost w_mid = texts(warnings@);
    let ghost e_mid = texts(errors@);
    let ghost m = market_findings_upto(instruments@, n, deals@, proxies@, *facts, waived, risk_tier);
    let mut k: usize = 0;
    proof {
        lemma_grew_none(warnings@, errors@);
    }
    while k < instruments.len()
        invariant
            k <= instruments@.len(),
            grew(
                w_mid,
                e_mid,
                warnings@,
                errors@,
                gate_findings_upto(instruments@, k as int, deals@, proxies@, *facts, waived),
            ),
        decreases instruments.len() - k,
    {
        let ghost w1 = texts(warnings@);
        let ghost e1 = texts(errors@);
        let date = facts.valuation_date;
        match gate_underlying_exec(&instruments[k], deals, proxies, date) {
            Some(u) => {
                let mut j: usize = 0;
                let mut first = true;
                while j < k
                    invariant
                        j <= k < instruments@.len(),
                        first ==> forall|a: int|
                            0 <= a < j ==> gate_underlying(#[trigger] instruments@[a], deals@, proxies@, date@)
                                != Some(u@),
                        !first ==> exists|a: int|
                            0 <= a < k && gate_underlying(#[trigger] instruments@[a], deals@, proxies@, date@)
                                == Some(u@),
                    decreases k - j,
                {
                    if first {
                        match gate_underlying_exec(&instruments[j], deals, proxies, date) {
                            Some(v) => {
                                if *v == *u {
                                    first = false;
                                }
                            },
                            None => {},
                        }
                    }
                    j = j + 1;
                }
                if first {
                    match find_surface_findings(&facts.no_arb_findings, u) {
                        Some(fs) => {
                            route_surface_findings(u, instruments[k].id(), fs, waived, warnings, errors);
                        },
                        None => {
                            proof {
                                lemma_grew_none(warnings@, errors@);
                            }
                        },
                    }
                } else {
                    proof {
                        lemma_grew_none(warnings@, errors@);
                    }
                }
            },
            None => {
                proof {
                    lemma_grew_none(warnings@, errors@);
                }
            },
        }
        proof {
            let prev = gate_findings_upto(instruments@, k as int, deals@, proxies@, *facts, waived);
            let f = gate_findings(instruments@, k as int, deals@, proxies@, *facts, waived);
            assert(texts(warnings@) =~= w_mid + (prev.0 + f.0));
            assert(texts(errors@) =~= e_mid + (prev.1 + f.1));
        }
        k = k + 1;
    }
    let ghost w_gate = texts(warnings@);
    let ghost e_gate = texts(errors@);
    if !risk_tier {
        let mut unneeded: Vec<&String> = Vec::new();
        let mut i: usize = 0;
        proof {
            assert(facts.surfaces@.take(0) =~= Seq::<String>::empty());
        }
        while i < facts.surfaces.len()
            invariant
                i <= facts.surfaces@.len(),
                unneeded@.map_values(|s: &String| s@) == unneeded_surfaces(
                    facts.surfaces@.take(i as int),
                    instruments@,
                    proxies@,
                    facts.valuation_date@,
                ),
            decreases facts.surfaces.len() - i,
        {
            proof {
                assert(facts.surfaces@.take(i + 1).drop_last() =~= facts.surfaces@.take(i as int));
                assert(facts.surfaces@.take(i + 1).last() == facts.surfaces@[i as int]);
            }
            if !needs_surface_exec(instruments, &facts.surfaces[i], proxies, facts.valuation_date) {
                let ghost before = unneeded@.map_values(|s: &String| s@);
                unneeded.push(&facts.surfaces[i]);
                proof {
                    assert(unneeded@.map_values(|s: &String| s@) =~= before.push(facts.surfaces@[i as int]@));
                }
            }
            i = i + 1;
        }
        proof {
            assert(facts.surfaces@.take(facts.surfaces@.len() as int) =~= facts.surfaces@);
        }
        if unneeded.len() > 0 {
            proof {
                reveal_strlit("market data carries ");
                reveal_strlit(" vol surface(s) no position needs (");
                reveal_strlit(", ");
                reveal_strlit(") \u{2014} book data should be vol-free; move them to a vol_data file (risk tier)");
            }
            let ghost names = unneeded@.map_values(|s: &String| s@);
            let mut msg = String::from_str("market data carries ").concat(
                crate::text::nat_text(unneeded.len() as u64).as_str(),
            ).concat(" vol surface(s) no position needs (");
            let ghost prefix = msg@;
            let mut j: usize = 0;
            while j < unneeded.len()
                invariant
                    j <= unneeded@.len(),
                    names == unneeded@.map_values(|s: &String| s@),
                    msg@ == prefix + crate::reports::join(names.take(j as int), ", "@),
                    ", "@ == seq![',', ' '],
                decreases unneeded.len() - j,
            {
                proof {
                    let t = names.take(j + 1);
                    assert(t.drop_last() =~= names.take(j as int));
                    assert(t.last() == names[j as int]);
                }
                if j > 0 {
                    msg.append(", ");
                }
                msg.append(unneeded[j].as_str());
                j = j + 1;
            }
            proof {
                assert(names.take(names.len() as int) =~= names);
            }
            msg.append(") \u{2014} book data should be vol-free; move them to a vol_data file (risk tier)");
            warn(warnings, msg);
        }
    }
    proof {
        let s = surface_warning(instruments@, proxies@, *facts, risk_tier);
        let g = gate_findings_upto(instruments@, n, deals@, proxies@, *facts, waived);
        assert(texts(warnings@) =~= w0 + (m.0 + g.0 + s));
        assert(texts(errors@) =~= e0 + (m.1 + g.1 + Seq::<Seq<char>>::empty()));
    }
}

/// The one finding the risk tier adds for an instrument: a live option
/// that does not mark to model and whose underlying has no vol surface.
pub open spec fn risk_only_warning(
    inst: Instrument,
    proxies: Seq<(String, String)>,
    facts: MarketFacts,
) -> (Seq<Seq<char>>, Seq<Seq<char>>) {
    match option_underlying(inst) {
        Some(u) => if !expired_on(inst, facts.valuation_date@) && !lists_id(facts.surfaces@, u)
            && !model_marked(inst, proxies) {
            (seq!["option '"@ + spec_id(inst) + "': no vol surface for underlying '"@ + u + "'"@], Seq::empty())
        } else {
            none_found()
        },
        None => none_found(),
    }
}

proof fn lemma_findings_upto_same_errors(
    instruments: Seq<Instrument>,
    n: int,
    deals: Seq<Deal>,
    proxies: Seq<(String, String)>,
    facts: MarketFacts,
    waived: bool,
)
    ensures
        market_findings_upto(instruments, n, deals, proxies, facts, waived, true).1
            == market_findings_upto(instruments, n, deals, proxies, facts, waived, false).1,
    decreases n,
{
    if n > 0 {
        lemma_findings_upto_same_errors(instruments, n - 1, deals, proxies, facts, waived);
        lemma_tier_findings_one(instruments[n - 1], deals, proxies, facts, waived);
    }
}

proof fn lemma_tier_findings_one(
    inst: Instrument,
    deals: Seq<Deal>,
    proxies: Seq<(String, String)>,
    facts: MarketFacts,
    waived: bool,
)
    ensures
        market_findings(inst, deals, proxies, facts, waived, true) == both(
            market_findings(inst, deals, proxies, facts, waived, false),
            risk_only_warning(inst, proxies, facts),
        ),
{
    let dealt = dealt_in(deals, spec_id(inst));
    let x = both(
        both(curve_finding(inst, facts), settle_finding(inst, dealt, facts, waived)),
        twin_finding(inst, dealt, proxies, facts, waived),
    );
    let pf = price_finding(inst, dealt, proxies, facts, waived, false);
    let pt = price_finding(inst, dealt, proxies, facts, waived, true);
    let extra = risk_only_warning(inst, proxies, facts);
    assert(pt.0 =~= pf.0 + extra.0);
    assert(pt.1 =~= pf.1 + extra.1);
    assert((x.0 + pt.0) =~= (x.0 + pf.0) + extra.0);
    assert((x.1 + pt.1) =~= (x.1 + pf.1) + extra.1);
}

/// The two tiers check the same market day alike but for vol surfaces:
/// their integrity errors are the same; each instrument's findings on the
/// risk tier are its book-tier findings followed by the risk tier's only
/// addition (a live option that does not mark to model and has no vol
/// surface for its underlying, which the book tier never reports); and
/// only the book tier warns about surfaces no position needs, exactly when
/// the day carries such a surface.
pub proof fn lemma_tiers_differ_only_in_vol_warnings(
    instruments: Seq<Instrument>,
    deals: Seq<Deal>,
    proxies: Seq<(String, String)>,
    waivers: Seq<Waiver>,
    facts: MarketFacts,
)
    ensures
        spec_market_checks(instruments, deals, proxies, waivers, facts, true).1 == spec_market_checks(
            instruments,
            deals,
            proxies,
            waivers,
            facts,
            false,
        ).1,
        forall|k: int|
            0 <= k < instruments.len() ==> #[trigger] market_findings(
                instruments[k],
                deals,
                proxies,
                facts,
                any_waiver(waivers, facts.valuation_date@),
                true,
            ) == both(
                market_findings(
                    instruments[k],
                    deals,
                    proxies,
                    facts,
                    any_waiver(waivers, facts.valuation_date@),
                    false,
                ),
                risk_only_warning(instruments[k], proxies, facts),
            ),
        surface_warning(instruments, proxies, facts, true) == Seq::<Seq<char>>::empty(),
        surface_warning(instruments, proxies, facts, false).len() > 0 <==> unneeded_surfaces(
            facts.surfaces@,
            instruments,
            proxies,
            facts.valuation_date@,
        ).len() > 0,
{
    let waived = any_waiver(waivers, facts.valuation_date@);
    lemma_findings_upto_same_errors(instruments, instruments.len() as int, deals, proxies, facts, waived);
    assert forall|k: int| 0 <= k < instruments.len() implies #[trigger] market_findings(
        instruments[k],
        deals,
        proxies,
        facts,
        waived,
        true,
    ) == both(
        market_findings(instruments[k], deals, proxies, facts, waived, false),
        risk_only_warning(instruments[k], proxies, facts),
    ) by {
        lemma_tier_findings_one(instruments[k], deals, proxies, facts, waived);
    }
}

/// Checking one market day on the book tier and on the risk tier, from the
/// same warnings and errors (what [`check_market`] appends on each): the
/// two tiers report the same integrity errors; their warnings are the same
/// per-instrument findings, where each instrument's risk-tier findings are
/// its book-tier ones followed by [`risk_only_warning`], then the same
/// no-arbitrage findings; and the book tier alone ends with the warning
/// about vol surfaces no position needs, which it gives exactly when the
/// day carries such a surface.
pub proof fn lemma_book_and_risk_checks(
    instruments: Seq<Instrument>,
    deals: Seq<Deal>,
    proxies: Seq<(String, String)>,
    waivers: Seq<Waiver>,
    facts: MarketFacts,
    w0: Seq<Seq<char>>,
    e0: Seq<Seq<char>>,
    book_warnings: Seq<String>,
    book_errors: Seq<String>,
    risk_warnings: Seq<String>,
    risk_errors: Seq<String>,
)
    requires
        grew(w0, e0, book_warnings, book_errors, spec_market_checks(instruments, deals, proxies, waivers, facts, false)),
        grew(w0, e0, risk_warnings, risk_errors, spec_market_checks(instruments, deals, proxies, waivers, facts, true)),
    ensures
        texts(book_errors) == texts(risk_errors),
        texts(book_warnings) == w0 + market_findings_upto(
            instruments,
            instruments.len() as int,
            deals,
            proxies,
            facts,
            any_waiver(waivers, facts.valuation_date@),
            false,
        ).0 + gate_findings_upto(
            instruments,
            instruments.len() as int,
            deals,
            proxies,
            facts,
            any_waiver(waivers, facts.valuation_date@),
        ).0 + surface_warning(instruments, proxies, facts, false),
        texts(risk_warnings) == w0 + market_findings_upto(
            instruments,
            instruments.len() as int,
            deals,
            proxies,
            facts,
            any_waiver(waivers, facts.valuation_date@),
            true,
        ).0 + gate_findings_upto(
            instruments,
            instruments.len() as int,
            deals,
            proxies,
            facts,
            any_waiver(waivers, facts.valuation_date@),
        ).0,
        forall|k: int|
            0 <= k < instruments.len() ==> #[trigger] market_findings(
                instruments[k],
                deals,
                proxies,
                facts,
                any_waiver(waivers, facts.valuation_date@),
                true,
            ) == both(
                market_findings(
                    instruments[k],
                    deals,
                    proxies,
                    facts,
                    any_waiver(waivers, facts.valuation_date@),
                    false,
                ),
                risk_only_warning(instruments[k], proxies, facts),
            ),
        surface_warning(instruments, proxies, facts, false).len() > 0 <==> unneeded_surfaces(
            facts.surfaces@,
            instruments,
            proxies,
            facts.valuation_date@,
        ).len() > 0,
{
    lemma_tiers_differ_only_in_vol_warnings(instruments, deals, proxies, waivers, facts);
    let w = any_waiver(waivers, facts.valuation_date@);
    let n = instruments.len() as int;
    let mb = market_findings_upto(instruments, n, deals, proxies, facts, w, false);
    let mr = market_findings_upto(instruments, n, deals, proxies, facts, w, true);
    let g = gate_findings_upto(instruments, n, deals, proxies, facts, w);
    assert(texts(book_warnings) =~= w0 + mb.0 + g.0 + surface_warning(instruments, proxies, facts, false));
    assert(texts(risk_warnings) =~= w0 + mr.0 + g.0);
}

/// `e` reports the first instrument whose id repeats an earlier one.
pub open spec fn instrument_id_failure(instruments: Seq<Instrument>, e: crate::error::Error) -> bool {
    exists|i: int, j: int|
        0 <= i < j < instruments.len() && spec_id(instruments[i]) == spec_id(instruments[j]) && (forall|
            a: int,
            b: int,
        | 0 <= a < b < j ==> spec_id(#[trigger] instruments[a]) != spec_id(#[trigger] instruments[b]))
            && config_error_text(e) == Some(duplicate_instrument_message(spec_id(instruments[j])))
}

/// `e` reports the first deal whose id repeats an earlier one.
pub open spec fn deal_id_failure(deals: Seq<Deal>, e: crate::error::Error) -> bool {
    exists|i: int, j: int|
        0 <= i < j < deals.len() && deal_key(deals[i]) == deal_key(deals[j]) && (forall|a: int, b: int|
            0 <= a < b < j ==> deal_key(#[trigger] deals[a]) != deal_key(#[trigger] deals[b]))
            && config_error_text(e) == Some("duplicate deal ID '"@ + deals[j].id@ + "'"@)
}

/// Every deal names a listed instrument.
pub open spec fn deals_known(deals: Seq<Deal>, instruments: Seq<Instrument>) -> bool {
    forall|k: int| 0 <= k < deals.len() ==> instrument_lookup(instruments, (#[trigger] deals[k]).instrument_id@) is Some
}

/// `e` reports the first deal on an instrument that is not listed.
pub open spec fn unknown_instrument_failure(deals: Seq<Deal>, instruments: Seq<Instrument>, e: crate::error::Error) -> bool {
    exists|k: int|
        0 <= k < deals.len() && instrument_lookup(instruments, deals[k].instrument_id@) is None && (forall|a: int|
            0 <= a < k ==> instrument_lookup(instruments, (#[trigger] deals[a]).instrument_id@) is Some)
            && config_error_text(e) == Some(
            "deal '"@ + deals[k].id@ + "' references unknown instrument '"@ + deals[k].instrument_id@ + "'"@,
        )
}

/// Every proxy mark pairs an uncleared instrument with a cleared twin.
pub open spec fn proxies_valid(proxies: Seq<(String, String)>, instruments: Seq<Instrument>) -> bool {
    forall|k: int| 0 <= k < proxies.len() ==> proxy_problem(instruments, (#[trigger] proxies[k]).0@, proxies[k].1@) is None
}

/// `e` reports the problem of the first invalid proxy mark.
pub open spec fn proxy_failure(proxies: Seq<(String, String)>, instruments: Seq<Instrument>, e: crate::error::Error) -> bool {
    exists|k: int|
        0 <= k < proxies.len() && (forall|a: int|
            0 <= a < k ==> proxy_problem(instruments, (#[trigger] proxies[a]).0@, proxies[a].1@) is None)
            && proxy_problem(instruments, proxies[k].0@, proxies[k].1@) is Some && config_error_text(e)
            == proxy_problem(instruments, proxies[k].0@, proxies[k].1@)
}

/// The determination-window end of the first index of `indices` with id
/// `id`: `None` when there is none, `Some(None)` when that index is not an
/// average over a window.
pub open spec fn index_window(indices: Seq<SettlementIndex>, id: Seq<char>) -> Option<Option<Date>>
    decreases indices.len(),
{
    if indices.len() == 0 {
        None
    } else if indices[0].id@ == id {
        Some(indices[0].average_window_end)
    } else {
        index_window(indices.drop_first(), id)
    }
}

/// What is wrong with future `f` against the index registry, if anything:
/// its underlying names no index, or names an average whose determination
/// window does not end on the future's expiry.
pub open spec fn future_index_failure(f: Future, indices: Seq<SettlementIndex>) -> Option<Seq<char>> {
    match index_window(indices, f.underlying@) {
        None => Some(
            "future '"@ + f.id@ + "' references unknown settlement index '"@ + f.underlying@ + "'"@,
        ),
        Some(Some(end)) => if end@ != f.expiry@ {
            Some(
                "future '"@ + f.id@ + "': determination window of '"@ + f.underlying@ + "' ends "@
                    + day_text(end@) + " but expiry is "@ + day_text(f.expiry@)
                    + " \u{2014} contract points at the wrong period entry"@,
            )
        } else {
            None
        },
        Some(None) => None,
    }
}

/// What is wrong with an instrument against the index registry: only
/// futures are written on settlement indices.
pub open spec fn index_failure(inst: Instrument, indices: Seq<SettlementIndex>) -> Option<Seq<char>> {
    match inst {
        Instrument::Future(f) => future_index_failure(f, indices),
        _ => None,
    }
}

/// Every future's underlying resolves to an index, and an average's
/// window ends on the future's expiry.
pub open spec fn futures_resolve(instruments: Seq<Instrument>, indices: Seq<SettlementIndex>) -> bool {
    forall|k: int| 0 <= k < instruments.len() ==> #[trigger] index_failure(instruments[k], indices) is None
}

/// `e` is the error of the future of least id among those that fail
/// against the index registry.
pub open spec fn future_index_error(instruments: Seq<Instrument>, indices: Seq<SettlementIndex>, e: Error) -> bool {
    exists|k: int|
        #![trigger index_failure(instruments[k], indices)]
        {
            &&& 0 <= k < instruments.len()
            &&& e matches Error::Config(t) && index_failure(instruments[k], indices) == Some(t@)
            &&& forall|j: int|
                0 <= j < instruments.len() && index_failure(instruments[j], indices) is Some ==> !text_lt(
                    spec_id(#[trigger] instruments[j]),
                    spec_id(instruments[k]),
                )
        }
}

fn find_index(indices: &[SettlementIndex], id: &String) -> (r: Option<Option<Date>>)
    ensures
        r == index_window(indices@, id@),
{
    let mut i: usize = 0;
    proof {
        assert(indices@.skip(0) =~= indices@);
    }
    while i < indices.len()
        invariant
            i <= indices@.len(),
            index_window(indices@, id@) == index_window(indices@.skip(i as int), id@),
        decreases indices.len() - i,
    {
        proof {
            assert(indices@.skip(i as int).drop_first() =~= indices@.skip(i + 1));
            assert(indices@.skip(i as int)[0] == indices@[i as int]);
        }
        if indices[i].id == *id {
            return Some(indices[i].average_window_end);
        }
        i = i + 1;
    }
    None
}

fn future_message(f: &Future, indices: &[SettlementIndex]) -> (r: Option<String>)
    ensures
        r is None <==> future_index_failure(*f, indices@) is None,
        r matches Some(m) ==> future_index_failure(*f, indices@) == Some(m@),
{
    proof {
        reveal_strlit("future '");
        reveal_strlit("' references unknown settlement index '");
        reveal_strlit("'");
        reveal_strlit("': determination window of '");
        reveal_strlit("' ends ");
        reveal_strlit(" but expiry is ");
        reveal_strlit(" \u{2014} contract points at the wrong period entry");
    }
    match find_index(indices, &f.underlying) {
        None => Some(
            String::from_str("future '").concat(f.id.as_str()).concat(
                "' references unknown settlement index '",
            ).concat(f.underlying.as_str()).concat("'"),
        ),
        Some(Some(end)) => {
            if end.same_day(&f.expiry) {
                None
            } else {
                Some(
                    String::from_str("future '").concat(f.id.as_str()).concat(
                        "': determination window of '",
                    ).concat(f.underlying.as_str()).concat("' ends ").concat(date_string(&end).as_str()).concat(
                        " but expiry is ",
                    ).concat(date_string(&f.expiry).as_str()).concat(
                        " \u{2014} contract points at the wrong period entry",
                    ),
                )
            }
        },
        Some(None) => None,
    }
}

/// Every future must be written on a known settlement index, and an
/// average index's determination window must end on the future's expiry
/// (both are the last working day of the determination month, so a
/// mismatch means the contract points at the wrong period entry). The
/// error names the failing future of least id.
pub fn check_future_indices(instruments: &[Instrument], indices: &[SettlementIndex]) -> (r: crate::error::Result<()>)
    ensures
        r is Ok <==> futures_resolve(instruments@, indices@),
        r matches Err(e) ==> future_index_error(instruments@, indices@, e),
{
    let mut best: Option<(usize, String)> = None;
    let mut i: usize = 0;
    while i < instruments.len()
        invariant
            i <= instruments@.len(),
            best is None ==> forall|j: int| 0 <= j < i ==> #[trigger] index_failure(instruments@[j], indices@) is None,
            best matches Some((k, m)) ==> k < i && index_failure(instruments@[k as int], indices@) == Some(m@)
                && forall|j: int|
                0 <= j < i && index_failure(instruments@[j], indices@) is Some ==> !text_lt(
                    spec_id(#[trigger] instruments@[j]),
                    spec_id(instruments@[k as int]),
                ),
        decreases instruments.len() - i,
    {
        if let Instrument::Future(f) = &instruments[i] {
            match future_message(f, indices) {
                None => {},
                Some(m) => {
                    let replace = match &best {
                        None => true,
                        Some((k, _)) => text_less(f.id.as_str(), instruments[*k].id().as_str()),
                    };
                    if replace {
                        proof {
                            if let Some((k, _)) = best {
                                assert forall|j: int|
                                    0 <= j < i && index_failure(instruments@[j], indices@) is Some implies !text_lt(
                                    spec_id(#[trigger] instruments@[j]),
                                    spec_id(instruments@[i as int]),
                                ) by {
                                    if text_lt(spec_id(instruments@[j]), spec_id(instruments@[i as int])) {
                                        lemma_text_lt_transitive(
                                            spec_id(instruments@[j]),
                                            spec_id(instruments@[i as int]),
                                            spec_id(instruments@[k as int]),
                                        );
                                    }
                                }
                            }
                            lemma_text_lt_irreflexive(spec_id(instruments@[i as int]));
                        }
                        best = Some((i, m));
                    }
                },
            }
        }
        i = i + 1;
    }
    match best {
        None => Ok(()),
        Some((k, m)) => Err(Error::Config(m)),
    }
}

/// The static checks of a book, in the order loading applies them:
/// distinct instrument ids, every future on a settlement index of the
/// registry (see [`check_future_indices`]), distinct deal ids, every deal on a known
/// instrument, a valid proxy-mark policy. The first failure is the error;
/// a book that passes gets its advisory warnings (see [`book_warnings`]).
pub fn check_book(
    instruments: &[Instrument],
    indices: &[SettlementIndex],
    deals: &[Deal],
    proxies: &ProxyMarks,
) -> (r: crate::error::Result<Vec<String>>)
    ensures
        r is Ok <==> (ids_distinct(instruments@) && futures_resolve(instruments@, indices@) && deal_ids_distinct(
            deals@,
        ) && deals_known(deals@, instruments@) && proxies_valid(proxies@, instruments@)),
        r matches Ok(w) ==> exists|l: Seq<(String, usize)>|
            #![trigger is_sorted_index(l, instruments@)]
            is_sorted_index(l, instruments@) && texts(w@) == book_warnings_upto(
                l,
                instruments@,
                instruments@.len() as int,
            ),
        r matches Err(e) ==> e is Config && if !ids_distinct(instruments@) {
            instrument_id_failure(instruments@, e)
        } else if !futures_resolve(instruments@, indices@) {
            future_index_error(instruments@, indices@, e)
        } else if !deal_ids_distinct(deals@) {
            deal_id_failure(deals@, e)
        } else if !deals_known(deals@, instruments@) {
            unknown_instrument_failure(deals@, instruments@, e)
        } else {
            proxy_failure(proxies@, instruments@, e)
        },
{
    match check_instrument_ids(instruments) {
        Err(e) => return Err(e),
        Ok(()) => {},
    }
    match check_future_indices(instruments, indices) {
        Err(e) => return Err(e),
        Ok(()) => {},
    }
    match check_deal_ids(deals) {
        Err(e) => return Err(e),
        Ok(()) => {},
    }
    let warnings = book_warnings(instruments);
    match check_deal_instruments(deals, instruments) {
        Err(e) => return Err(e),
        Ok(()) => {},
    }
    match check_proxy_marks(proxies, instruments) {
        Err(e) => return Err(e),
        Ok(()) => {},
    }
    Ok(warnings)
}

} // verus!
