//! Chronological order of dates.

use vstd::prelude::*;

use super::Date;
use vstd::std_specs::cmp::PartialOrdSpecImpl;

verus! {

impl PartialOrd for Date {
    fn partial_cmp(&self, other: &Date) -> (r: Option<core::cmp::Ordering>) {
        let a = self.serial();
        let b = other.serial();
        if a < b {
            Some(core::cmp::Ordering::Less)
        } else if a > b {
            Some(core::cmp::Ordering::Greater)
        } else {
            Some(core::cmp::Ordering::Equal)
        }
    }
}

impl PartialOrdSpecImpl for Date {
    open spec fn obeys_partial_cmp_spec() -> bool {
        true
    }

    /// Dates are ordered chronologically, i.e. by day number.
    open spec fn partial_cmp_spec(&self, other: &Date) -> Option<core::cmp::Ordering> {
        if self@ < other@ {
            Some(core::cmp::Ordering::Less)
        } else if self@ > other@ {
            Some(core::cmp::Ordering::Greater)
        } else {
            Some(core::cmp::Ordering::Equal)
        }
    }
}

} // verus!
