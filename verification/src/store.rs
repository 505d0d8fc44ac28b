//! A market series kept as a manifest: for each trading day, the file
//! holding that day's snapshot and the instruments it settles; the days
//! the venue did not trade; and provenance stamps. Reading the files is
//! the caller's; this is the calendar and coverage the manifest states.

use vstd::prelude::*;
use vstd::string::StringExecFns;

use crate::config::{date_string, day_text};
use crate::dates::Date;
use crate::error::Error;

verus! {

/// One trading day of the manifest.
#[derive(Clone, Debug)]
pub struct StoreDay {
    pub date: Date,
    /// The file holding the day's market snapshot.
    pub file: String,
    /// The instruments the snapshot settles.
    pub settles: Vec<String>,
}

/// The days of `days` are in strictly ascending order.
pub open spec fn days_ascending(days: Seq<StoreDay>) -> bool {
    forall|i: int, j: int| 0 <= i < j < days.len() ==> (#[trigger] days[i]).date@ < (#[trigger] days[j]).date@
}

/// Some day of `days` is `d`.
pub open spec fn lists_day(days: Seq<StoreDay>, d: int) -> bool {
    exists|i: int| 0 <= i < days.len() && (#[trigger] days[i]).date@ == d
}

/// Some day of `days` is `d` and settles `id`.
pub open spec fn settles_on(days: Seq<StoreDay>, d: int, id: Seq<char>) -> bool {
    exists|i: int, k: int|
        0 <= i < days.len() && (#[trigger] days[i]).date@ == d && 0 <= k < days[i].settles@.len()
            && (#[trigger] days[i].settles@[k])@ == id
}

/// The message for a day the series has no snapshot for.
pub open spec fn no_snapshot_text(d: int) -> Seq<char> {
    "no market snapshot for "@ + day_text(d) + " in the series"@
}

/// A market series manifest: trading days in ascending order, skipped
/// days, source and generator stamps.
#[derive(Debug)]
pub struct MarketStore {
    days: Vec<StoreDay>,
    skipped: Vec<Date>,
    source: Option<String>,
    generator: Option<String>,
}

impl MarketStore {
    /// The trading days, in ascending order.
    pub closed spec fn spec_days(self) -> Seq<StoreDay> {
        self.days@
    }

    /// The skipped (non-trading) days.
    pub closed spec fn spec_skipped(self) -> Seq<Date> {
        self.skipped@
    }

    /// The source stamp.
    pub closed spec fn spec_source(self) -> Option<String> {
        self.source
    }

    /// The generator stamp.
    pub closed spec fn spec_generator(self) -> Option<String> {
        self.generator
    }

    /// Trading days are kept in strictly ascending order.
    #[verifier::type_invariant]
    pub closed spec fn wf(self) -> bool {
        days_ascending(self.days@)
    }

    /// A store of the given trading days (in strictly ascending order),
    /// skipped days and stamps.
    pub fn new(days: Vec<StoreDay>, skipped: Vec<Date>, source: Option<String>, generator: Option<String>) -> (r:
        MarketStore)
        requires
            days_ascending(days@),
        ensures
            r.spec_days() == days@,
            r.spec_skipped() == skipped@,
            r.spec_source() == source,
            r.spec_generator() == generator,
    {
        MarketStore { days, skipped, source, generator }
    }

    /// The trading days, in ascending order.
    pub fn days(&self) -> (r: Vec<Date>)
        ensures
            r@.len() == self.spec_days().len(),
            forall|i: int| 0 <= i < r@.len() ==> r@[i] == self.spec_days()[i].date,
    {
        let mut r: Vec<Date> = Vec::new();
        let mut i: usize = 0;
        while i < self.days.len()
            invariant
                i <= self.days@.len(),
                r@.len() == i,
                forall|a: int| 0 <= a < i ==> r@[a] == self.days@[a].date,
            decreases self.days.len() - i,
        {
            r.push(self.days[i].date);
            i = i + 1;
        }
        r
    }

    /// The first trading day, if any.
    pub fn first_day(&self) -> (r: Option<Date>)
        ensures
            r matches Some(d) ==> self.spec_days().len() > 0 && d == self.spec_days()[0].date,
            r is None <==> self.spec_days().len() == 0,
    {
        if self.days.len() == 0 {
            None
        } else {
            Some(self.days[0].date)
        }
    }

    /// The last trading day, if any.
    pub fn last_day(&self) -> (r: Option<Date>)
        ensures
            r matches Some(d) ==> self.spec_days().len() > 0 && d == self.spec_days().last().date,
            r is None <==> self.spec_days().len() == 0,
    {
        if self.days.len() == 0 {
            None
        } else {
            Some(self.days[self.days.len() - 1].date)
        }
    }

    /// The number of trading days.
    pub fn len(&self) -> (r: usize)
        ensures
            r == self.spec_days().len(),
    {
        self.days.len()
    }

    /// Whether the store has no trading day.
    pub fn is_empty(&self) -> (r: bool)
        ensures
            r == (self.spec_days().len() == 0),
    {
        self.days.len() == 0
    }

    /// Position of the trading day `date`, if listed.
    fn position(&self, date: Date) -> (r: Option<usize>)
        ensures
            r matches Some(i) ==> i < self.spec_days().len() && self.spec_days()[i as int].date@ == date@,
            r is None ==> !lists_day(self.spec_days(), date@),
    {
        let mut i: usize = 0;
        while i < self.days.len()
            invariant
                i <= self.days@.len(),
                forall|a: int| 0 <= a < i ==> (#[trigger] self.days@[a]).date@ != date@,
            decreases self.days.len() - i,
        {
            if self.days[i].date.same_day(&date) {
                return Some(i);
            }
            i = i + 1;
        }
        None
    }

    /// Whether the venue traded on `date` (the manifest lists it).
    pub fn is_trading_day(&self, date: Date) -> (r: bool)
        ensures
            r == lists_day(self.spec_days(), date@),
    {
        self.position(date).is_some()
    }

    /// Whether the manifest accounts for `date`: a trading day or a
    /// skipped one.
    pub fn is_known(&self, date: Date) -> (r: bool)
        ensures
            r == (lists_day(self.spec_days(), date@) || exists|k: int|
                0 <= k < self.spec_skipped().len() && (#[trigger] self.spec_skipped()[k])@ == date@),
    {
        if self.is_trading_day(date) {
            return true;
        }
        let mut k: usize = 0;
        while k < self.skipped.len()
            invariant
                k <= self.skipped@.len(),
                forall|a: int| 0 <= a < k ==> (#[trigger] self.skipped@[a])@ != date@,
            decreases self.skipped.len() - k,
        {
            if self.skipped[k].same_day(&date) {
                proof {
                    assert(self.spec_skipped()[k as int]@ == date@);
                }
                return true;
            }
            k = k + 1;
        }
        false
    }

    /// Whether the snapshot of `date` settles the instrument `id`.
    pub fn has_settle(&self, date: Date, id: &str) -> (r: bool)
        ensures
            r == settles_on(self.spec_days(), date@, id@),
    {
        proof {
            use_type_invariant(self);
        }
        match self.position(date) {
            None => false,
            Some(i) => {
                let wanted = String::from_str(id);
                let settles = &self.days[i].settles;
                let mut k: usize = 0;
                while k < settles.len()
                    invariant
                        i < self.days@.len(),
                        settles == &self.days@[i as int].settles,
                        self.days@[i as int].date@ == date@,
                        days_ascending(self.days@),
                        k <= settles@.len(),
                        wanted@ == id@,
                        forall|a: int| 0 <= a < k ==> (#[trigger] settles@[a])@ != id@,
                    decreases settles.len() - k,
                {
                    if settles[k] == wanted {
                        proof {
                            assert(self.days@[i as int].settles@[k as int]@ == id@);
                        }
                        return true;
                    }
                    k = k + 1;
                }
                proof {
                    assert forall|j: int, a: int|
                        0 <= j < self.days@.len() && (#[trigger] self.days@[j]).date@ == date@ && 0 <= a
                            < self.days@[j].settles@.len() implies (#[trigger] self.days@[j].settles@[a])@
                        != id@ by {
                        if j != i {
                            if j < i {
                                assert(self.days@[j].date@ < self.days@[i as int].date@);
                            } else {
                                assert(self.days@[i as int].date@ < self.days@[j].date@);
                            }
                        }
                    }
                }
                false
            },
        }
    }

    /// The source stamp.
    pub fn source(&self) -> (r: Option<&str>)
        ensures
            r matches Some(s) ==> self.spec_source() matches Some(t) && s@ == t@,
            r is None <==> self.spec_source() is None,
    {
        match &self.source {
            Some(s) => Some(s.as_str()),
            None => None,
        }
    }

    /// The generator stamp.
    pub fn generator(&self) -> (r: Option<&str>)
        ensures
            r matches Some(s) ==> self.spec_generator() matches Some(t) && s@ == t@,
            r is None <==> self.spec_generator() is None,
    {
        match &self.generator {
            Some(s) => Some(s.as_str()),
            None => None,
        }
    }

    /// The manifest entry of the trading day `date`, or a market-data
    /// error saying the series has no snapshot for it.
    pub fn day_entry(&self, date: Date) -> (r: crate::error::Result<&StoreDay>)
        ensures
            r is Ok <==> lists_day(self.spec_days(), date@),
            r matches Ok(e) ==> e.date@ == date@ && exists|i: int|
                0 <= i < self.spec_days().len() && *e == #[trigger] self.spec_days()[i],
            r matches Err(e) ==> e matches Error::MarketData(m) && m@ == no_snapshot_text(date@),
    {
        proof {
            reveal_strlit("no market snapshot for ");
            reveal_strlit(" in the series");
        }
        match self.position(date) {
            Some(i) => Ok(&self.days[i]),
            None => Err(
                Error::MarketData(
                    String::from_str("no market snapshot for ").concat(date_string(&date).as_str()).concat(
                        " in the series",
                    ),
                ),
            ),
        }
    }
}

} // verus!
