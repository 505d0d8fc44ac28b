//! The venue-agnostic decisions of market-history generation: the span
//! to walk, what to ask a venue for on each day, and which vol surfaces a
//! book-tier day record must keep.

use vstd::prelude::*;
use vstd::string::StringExecFns;

use crate::config::{deal_day, date_string, day_text};
use crate::dates::civil::max_day_number;
use crate::dates::Date;
use crate::error::Error;
use crate::config::currency_of;
use crate::instruments::{spec_clearing, spec_id, spec_maturity, ClearingStatus, Instrument};
use crate::keyed::{has_key, key_slot, keys_sorted, lemma_insert_at_slot, lemma_slot_finds};
use crate::trades::Deal;

verus! {

/// The earliest deal date of `deals`, as a day number.
pub open spec fn earliest_day(deals: Seq<Deal>) -> Option<int>
    decreases deals.len(),
{
    if deals.len() == 0 {
        None
    } else {
        match earliest_day(deals.drop_last()) {
            Some(p) => Some(
                if deal_day(deals.last()) < p {
                    deal_day(deals.last())
                } else {
                    p
                },
            ),
            None => Some(deal_day(deals.last())),
        }
    }
}

/// The earliest deal date of `deals`, if there is a deal.
pub(crate) fn earliest_deal_date(deals: &[Deal]) -> (r: Option<Date>)
    ensures
        r matches Some(d) ==> earliest_day(deals@) == Some(d@),
        r is None ==> earliest_day(deals@) is None,
{
    let mut best: Option<Date> = None;
    let mut i: usize = 0;
    while i < deals.len()
        invariant
            i <= deals@.len(),
            match best {
                Some(b) => earliest_day(deals@.take(i as int)) == Some(b@),
                None => earliest_day(deals@.take(i as int)) is None,
            },
        decreases deals.len() - i,
    {
        proof {
            assert(deals@.take(i + 1).drop_last() =~= deals@.take(i as int));
            assert(deals@.take(i + 1).last() == deals@[i as int]);
        }
        let d = deals[i].timestamp.date();
        best = match best {
            Some(b) => if d.is_before(&b) {
                Some(d)
            } else {
                Some(b)
            },
            None => Some(d),
        };
        i = i + 1;
    }
    proof {
        assert(deals@.take(deals@.len() as int) =~= deals@);
    }
    best
}

/// The first day of a generation run: the given `from`, else the earliest
/// deal date; an error when neither exists or the span `[from, through]`
/// is empty.
pub fn generation_start(from: Option<Date>, through: Date, deals: Option<&[Deal]>) -> (r:
    crate::error::Result<Date>)
    ensures
        ({
            let start: Option<int> = match from {
                Some(d) => Some(d@),
                None => match deals {
                    Some(ds) => earliest_day(ds@),
                    None => None,
                },
            };
            &&& r is Ok <==> (start is Some && start.unwrap() <= through@)
            &&& r matches Ok(d) ==> Some(d@) == start
            &&& start is None ==> (r matches Err(Error::Config(m)) && m@
                == "generate: no `from` date and no deals to infer it from"@)
            &&& (start is Some && start.unwrap() > through@) ==> (r matches Err(Error::Config(m)) && m@
                == "generate: span is empty \u{2014} from "@ + day_text(start.unwrap())
                + " is after through "@ + day_text(through@))
        }),
{
    proof {
        reveal_strlit("generate: no `from` date and no deals to infer it from");
        reveal_strlit("generate: span is empty \u{2014} from ");
        reveal_strlit(" is after through ");
    }
    let start = match from {
        Some(d) => Some(d),
        None => match deals {
            Some(ds) => earliest_deal_date(ds),
            None => None,
        },
    };
    match start {
        None => Err(Error::Config(String::from_str("generate: no `from` date and no deals to infer it from"))),
        Some(s) => {
            if through.is_before(&s) {
                Err(
                    Error::Config(
                        String::from_str("generate: span is empty \u{2014} from ").concat(
                            date_string(&s).as_str(),
                        ).concat(" is after through ").concat(date_string(&through).as_str()),
                    ),
                )
            } else {
                Ok(s)
            }
        },
    }
}

/// `u` is the underlying of an uncleared option that is alive on the day
/// numbered `day` (it expires later) and, when deals are known, already
/// dealt by that day: its surface is a marking requirement.
pub open spec fn marks_with_surface(
    instruments: Seq<Instrument>,
    deals: Option<Seq<Deal>>,
    day: int,
    u: Seq<char>,
) -> bool {
    exists|k: int|
        0 <= k < instruments.len() && #[trigger] option_is_model_marked(
            instruments[k],
            deals,
            day,
            u,
        )
}

/// The option `inst` on `u` is uncleared, alive after `day`, and dealt by it.
pub open spec fn option_is_model_marked(
    inst: Instrument,
    deals: Option<Seq<Deal>>,
    day: int,
    u: Seq<char>,
) -> bool {
    match inst {
        Instrument::EuropeanOption(o) => {
            &&& o.underlying@ == u
            &&& o.clearing == ClearingStatus::Uncleared
            &&& day < o.expiry@
            &&& match deals {
                None => true,
                Some(ds) => exists|j: int|
                    0 <= j < ds.len() && #[trigger] ds[j].instrument_id@ == o.id@ && deal_day(ds[j])
                        <= day,
            }
        },
        _ => false,
    }
}

fn dealt_by(deals: Option<&[Deal]>, id: &String, date: Date) -> (r: bool)
    ensures
        r == match deals {
            None => true,
            Some(ds) => exists|j: int|
                0 <= j < ds@.len() && #[trigger] ds@[j].instrument_id@ == id@ && deal_day(ds@[j])
                    <= date@,
        },
{
    match deals {
        None => true,
        Some(ds) => {
            let mut j: usize = 0;
            while j < ds.len()
                invariant
                    j <= ds@.len(),
                    deals == Some(ds),
                    forall|a: int|
                        0 <= a < j ==> !((#[trigger] ds@[a]).instrument_id@ == id@ && deal_day(ds@[a])
                            <= date@),
                decreases ds.len() - j,
            {
                let same = ds[j].instrument_id == *id;
                let d = ds[j].timestamp.date();
                if same && d.is_on_or_before(&date) {
                    proof {
                        assert(ds@[j as int].instrument_id@ == id@ && deal_day(ds@[j as int]) <= date@);
                    }
                    return true;
                }
                j = j + 1;
            }
            false
        },
    }
}

/// Underlyings whose surface a market-history day record must embed, as a
/// sorted list without repeats: those of uncleared options alive on `date`
/// (cleared options mark at settles, expired ones at their frozen final)
/// and, when deals are known, already dealt by `date`.
pub fn model_marked_underlyings(instruments: &[Instrument], deals: Option<&[Deal]>, date: Date) -> (r:
    Vec<(String, ())>)
    ensures
        keys_sorted(r@),
        forall|u: Seq<char>|
            #![trigger has_key(r@, u)]
            has_key(r@, u) <==> marks_with_surface(
                instruments@,
                match deals {
                    Some(ds) => Some(ds@),
                    None => None,
                },
                date@,
                u,
            ),
{
    let ghost ds = match deals {
        Some(ds) => Some(ds@),
        None => None,
    };
    let mut set: Vec<(String, ())> = Vec::new();
    let mut k: usize = 0;
    while k < instruments.len()
        invariant
            k <= instruments@.len(),
            ds == match deals {
                Some(d) => Some(d@),
                None => None,
            },
            keys_sorted(set@),
            forall|u: Seq<char>|
                #![trigger has_key(set@, u)]
                has_key(set@, u) <==> exists|a: int|
                    0 <= a < k && #[trigger] option_is_model_marked(instruments@[a], ds, date@, u),
        decreases instruments.len() - k,
    {
        let hit: Option<&String> = match &instruments[k] {
            Instrument::EuropeanOption(o) => {
                let uncleared = match o.clearing {
                    ClearingStatus::Uncleared => true,
                    ClearingStatus::Cleared => false,
                };
                if uncleared && date.is_before(&o.expiry) && dealt_by(deals, &o.id, date) {
                    Some(&o.underlying)
                } else {
                    None
                }
            },
            _ => None,
        };
        let ghost old_set = set@;
        match hit {
            Some(u) => {
                let p = key_slot(&set, u);
                proof {
                    lemma_slot_finds(set@, p as int, u@);
                }
                if !(p < set.len() && set[p].0 == *u) {
                    set.insert(p, (u.clone(), ()));
                    proof {
                        assert(set@ =~= old_set.insert(p as int, set@[p as int]));
                        lemma_insert_at_slot(old_set, p as int, set@[p as int]);
                    }
                }
                proof {
                    assert(option_is_model_marked(instruments@[k as int], ds, date@, u@));
                    assert forall|v: Seq<char>| #![trigger has_key(set@, v)] has_key(set@, v)
                        <==> exists|a: int|
                        0 <= a < k + 1 && #[trigger] option_is_model_marked(
                            instruments@[a],
                            ds,
                            date@,
                            v,
                        ) by {
                        if v != u@ {
                            assert(!option_is_model_marked(instruments@[k as int], ds, date@, v));
                            assert(has_key(set@, v) == has_key(old_set, v));
                        } else {
                            assert(has_key(set@, v));
                        }
                    }
                }
            },
            None => {
                proof {
                    assert forall|v: Seq<char>| #![trigger has_key(set@, v)] has_key(set@, v)
                        <==> exists|a: int|
                        0 <= a < k + 1 && #[trigger] option_is_model_marked(
                            instruments@[a],
                            ds,
                            date@,
                            v,
                        ) by {
                        assert(!option_is_model_marked(instruments@[k as int], ds, date@, v));
                    }
                }
            },
        }
        k = k + 1;
    }
    set
}

/// What to ask a venue for on one trading day.
pub struct DayPlan {
    /// Instruments expired before the day, in order: their frozen final
    /// settle.
    pub finals: Vec<String>,
    /// Live instruments, in order: their market price and settle.
    pub live: Vec<String>,
    /// Currencies of the instruments, sorted, without repeats: a discount
    /// curve each.
    pub currencies: Vec<(String, ())>,
    /// Underlyings of options alive on the day, sorted, without repeats: a
    /// vol surface each.
    pub underlyings: Vec<(String, ())>,
}

/// `inst` matured before the day numbered `day`.
pub open spec fn matured_before(inst: Instrument, day: int) -> bool {
    match spec_maturity(inst) {
        Some(m) => m < day,
        None => false,
    }
}

/// The ids of the instruments of `insts` that did (`expired`) or did not
/// mature before the day numbered `day`, in order.
pub open spec fn ids_by_expiry(insts: Seq<Instrument>, day: int, expired: bool) -> Seq<Seq<char>>
    decreases insts.len(),
{
    if insts.len() == 0 {
        Seq::empty()
    } else {
        let prev = ids_by_expiry(insts.drop_last(), day, expired);
        if matured_before(insts.last(), day) == expired {
            prev.push(spec_id(insts.last()))
        } else {
            prev
        }
    }
}

/// `u` is the underlying of an option alive on the day numbered `day`.
pub open spec fn live_underlying(inst: Instrument, day: int, u: Seq<char>) -> bool {
    match inst {
        Instrument::EuropeanOption(o) => o.underlying@ == u && day <= o.expiry@,
        _ => false,
    }
}

/// The requests of one day: finals for expired instruments, prices and
/// settles for live ones, a curve per currency and a surface per live
/// option underlying.
pub fn day_plan(instruments: &[Instrument], date: Date) -> (r: DayPlan)
    ensures
        r.finals@.map_values(|s: String| s@) == ids_by_expiry(instruments@, date@, true),
        r.live@.map_values(|s: String| s@) == ids_by_expiry(instruments@, date@, false),
        keys_sorted(r.currencies@),
        forall|c: Seq<char>|
            #![trigger has_key(r.currencies@, c)]
            has_key(r.currencies@, c) <==> exists|k: int|
                0 <= k < instruments@.len() && currency_of(#[trigger] instruments@[k]).id@ == c,
        keys_sorted(r.underlyings@),
        forall|u: Seq<char>|
            #![trigger has_key(r.underlyings@, u)]
            has_key(r.underlyings@, u) <==> exists|k: int|
                0 <= k < instruments@.len() && #[trigger] live_underlying(instruments@[k], date@, u),
{
    let mut finals: Vec<String> = Vec::new();
    let mut live: Vec<String> = Vec::new();
    let mut currencies: Vec<(String, ())> = Vec::new();
    let mut underlyings: Vec<(String, ())> = Vec::new();
    let mut k: usize = 0;
    while k < instruments.len()
        invariant
            k <= instruments@.len(),
            finals@.map_values(|s: String| s@) == ids_by_expiry(instruments@.take(k as int), date@, true),
            live@.map_values(|s: String| s@) == ids_by_expiry(instruments@.take(k as int), date@, false),
            keys_sorted(currencies@),
            forall|c: Seq<char>|
                #![trigger has_key(currencies@, c)]
                has_key(currencies@, c) <==> exists|a: int|
                    0 <= a < k && currency_of(#[trigger] instruments@[a]).id@ == c,
            keys_sorted(underlyings@),
            forall|u: Seq<char>|
                #![trigger has_key(underlyings@, u)]
                has_key(underlyings@, u) <==> exists|a: int|
                    0 <= a < k && #[trigger] live_underlying(instruments@[a], date@, u),
        decreases instruments.len() - k,
    {
        let inst = &instruments[k];
        proof {
            assert(instruments@.take(k + 1).drop_last() =~= instruments@.take(k as int));
            assert(instruments@.take(k + 1).last() == instruments@[k as int]);
        }
        let expired = match inst.maturity() {
            Some(m) => m.is_before(&date),
            None => false,
        };
        let ghost f0 = finals@;
        let ghost l0 = live@;
        if expired {
            finals.push(inst.id().clone());
            proof {
                assert(finals@.map_values(|s: String| s@) =~= f0.map_values(|s: String| s@).push(
                    spec_id(instruments@[k as int]),
                ));
            }
        } else {
            live.push(inst.id().clone());
            proof {
                assert(live@.map_values(|s: String| s@) =~= l0.map_values(|s: String| s@).push(
                    spec_id(instruments@[k as int]),
                ));
            }
        }
        let ccy = &inst.currency().id;
        let p = key_slot(&currencies, ccy);
        let ghost c0 = currencies@;
        proof {
            lemma_slot_finds(currencies@, p as int, ccy@);
        }
        if !(p < currencies.len() && currencies[p].0 == *ccy) {
            currencies.insert(p, (ccy.clone(), ()));
            proof {
                assert(currencies@ =~= c0.insert(p as int, currencies@[p as int]));
                lemma_insert_at_slot(c0, p as int, currencies@[p as int]);
            }
        }
        proof {
            assert forall|c: Seq<char>| #![trigger has_key(currencies@, c)] has_key(currencies@, c)
                <==> exists|a: int| 0 <= a < k + 1 && currency_of(#[trigger] instruments@[a]).id@ == c by {
                if c == ccy@ {
                    assert(has_key(currencies@, c));
                    assert(currency_of(instruments@[k as int]).id@ == c);
                } else {
                    assert(has_key(currencies@, c) == has_key(c0, c));
                }
            }
        }
        let ghost u0 = underlyings@;
        match inst {
            Instrument::EuropeanOption(o) => {
                if date.is_on_or_before(&o.expiry) {
                    let q = key_slot(&underlyings, &o.underlying);
                    proof {
                        lemma_slot_finds(underlyings@, q as int, o.underlying@);
                    }
                    if !(q < underlyings.len() && underlyings[q].0 == o.underlying) {
                        underlyings.insert(q, (o.underlying.clone(), ()));
                        proof {
                            assert(underlyings@ =~= u0.insert(q as int, underlyings@[q as int]));
                            lemma_insert_at_slot(u0, q as int, underlyings@[q as int]);
                        }
                    }
                    proof {
                        assert(live_underlying(instruments@[k as int], date@, o.underlying@));
                        assert forall|u: Seq<char>| #![trigger has_key(underlyings@, u)] has_key(
                            underlyings@,
                            u,
                        ) <==> exists|a: int|
                            0 <= a < k + 1 && #[trigger] live_underlying(instruments@[a], date@, u) by {
                            if u != o.underlying@ {
                                assert(!live_underlying(instruments@[k as int], date@, u));
                                assert(has_key(underlyings@, u) == has_key(u0, u));
                            } else {
                                assert(has_key(underlyings@, u));
                            }
                        }
                    }
                } else {
                    proof {
                        assert forall|u: Seq<char>| #![trigger has_key(underlyings@, u)] has_key(
                            underlyings@,
                            u,
                        ) <==> exists|a: int|
                            0 <= a < k + 1 && #[trigger] live_underlying(instruments@[a], date@, u) by {
                            assert(!live_underlying(instruments@[k as int], date@, u));
                        }
                    }
                }
            },
            _ => {
                proof {
                    assert forall|u: Seq<char>| #![trigger has_key(underlyings@, u)] has_key(
                        underlyings@,
                        u,
                    ) <==> exists|a: int|
                        0 <= a < k + 1 && #[trigger] live_underlying(instruments@[a], date@, u) by {
                        assert(!live_underlying(instruments@[k as int], date@, u));
                    }
                }
            },
        }
        k = k + 1;
    }
    proof {
        assert(instruments@.take(instruments@.len() as int) =~= instruments@);
    }
    DayPlan { finals, live, currencies, underlyings }
}

/// What the walk does with a day: record it (the venue traded) or list it
/// among the skipped days.
#[derive(Clone, Copy, Debug, PartialEq, Eq, Structural)]
pub enum WalkAction {
    Record,
    Skip,
}

/// One step of the day walk over `[from, through]`: record `date` when the
/// venue traded on it, else skip it; then the next calendar day, or `None`
/// once `through` is done.
pub fn walk_step(date: Date, through: Date, trading: bool) -> (r: (WalkAction, Option<Date>))
    requires
        date@ <= through@,
    ensures
        r.0 == (if trading {
            WalkAction::Record
        } else {
            WalkAction::Skip
        }),
        r.1 is None <==> date@ == through@,
        r.1 matches Some(n) ==> n@ == date@ + 1,
        r.1 matches Some(n) ==> walk_trace(date@, through@) == seq![date@].add(walk_trace(n@, through@)),
        r.1 is None ==> walk_trace(date@, through@) == seq![date@],
{
    proof {
        use_type_invariant(&date);
        use_type_invariant(&through);
        Date::lemma_view_facts(date, through);
        Date::lemma_view_facts(through, date);
    }
    let action = if trading {
        WalkAction::Record
    } else {
        WalkAction::Skip
    };
    if date.is_before(&through) {
        (action, Some(date.add_days(1)))
    } else {
        (action, None)
    }
}

/// The days the walk visits from `date` on, following [`walk_step`] until
/// it returns `None` at `through`.
pub open spec fn walk_trace(date: int, through: int) -> Seq<int>
    decreases through - date,
{
    if date >= through {
        seq![date]
    } else {
        seq![date].add(walk_trace(date + 1, through))
    }
}

/// The walk partitions the span: starting at `from`, it visits every day
/// of `[from, through]` exactly once, in calendar order, and nothing else;
/// each visited day is recorded or skipped (by [`walk_step`]), so the
/// recorded and skipped days together are the span, without overlap.
pub proof fn lemma_walk_visits_span_once(from: int, through: int)
    requires
        from <= through,
    ensures
        walk_trace(from, through) == Seq::new((through - from + 1) as nat, |i: int| from + i),
    decreases through - from,
{
    if from < through {
        lemma_walk_visits_span_once(from + 1, through);
        assert(walk_trace(from, through) =~= Seq::new((through - from + 1) as nat, |i: int| from + i));
    } else {
        assert(walk_trace(from, through) =~= Seq::new(1, |i: int| from + i));
    }
}

/// For each vol surface of a day, by underlying, whether the book-tier
/// market record keeps it: exactly those whose underlying is among the
/// `needed` ones. Every surface also goes to the risk-tier vols record.
pub fn split_surfaces(ids: &[String], needed: &[(String, ())]) -> (keep: Vec<bool>)
    ensures
        keep@.len() == ids@.len(),
        forall|i: int| 0 <= i < keep@.len() ==> keep@[i] == has_key(needed@, ids@[i]@),
{
    let mut keep: Vec<bool> = Vec::new();
    let mut i: usize = 0;
    while i < ids.len()
        invariant
            i <= ids@.len(),
            keep@.len() == i,
            forall|a: int| 0 <= a < i ==> keep@[a] == has_key(needed@, ids@[a]@),
        decreases ids.len() - i,
    {
        let mut found = false;
        let mut j: usize = 0;
        while j < needed.len()
            invariant
                i < ids@.len(),
                j <= needed@.len(),
                found <==> exists|b: int| 0 <= b < j && #[trigger] needed@[b].0@ == ids@[i as int]@,
            decreases needed.len() - j,
        {
            if needed[j].0 == ids[i] {
                found = true;
            }
            j = j + 1;
        }
        keep.push(found);
        i = i + 1;
    }
    keep
}

/// A provenance stamp for a history header: absent when empty, since an
/// empty stamp would claim a provenance that was never declared.
pub fn provenance_stamp(stamp: &str) -> (r: Option<String>)
    ensures
        r is None <==> stamp@.len() == 0,
        r matches Some(t) ==> t@ == stamp@,
{
    if stamp.is_empty() {
        None
    } else {
        Some(String::from_str(stamp))
    }
}

} // verus!
