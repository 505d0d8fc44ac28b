//! What the cleaning of option quotes did with each row.

use vstd::prelude::*;

verus! {

/// Cleaning disposition of a quote row.
#[derive(Clone, Debug)]
pub enum Disposition {
    /// The row survived cleaning (it fed the surface build).
    Kept,
    /// The row was dropped; the reason is part of the record.
    Dropped { reason: String },
}

} // verus!
