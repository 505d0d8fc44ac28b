//! Trade events.

use vstd::prelude::*;

use crate::dates::instant::Timestamp;
use crate::decimal::{Decimal, DecimalParts};

verus! {

/// Direction of a trade or a position.
#[derive(Clone, Copy, Debug, PartialEq, Eq, Hash)]
pub enum BuySell {
    Buy,
    Sell,
}

/// One executed trade.
#[derive(Debug)]
pub struct Deal {
    pub id: String,
    pub instrument_id: String,
    pub direction: BuySell,
    /// Quantity traded, in contracts (non-negative; the direction carries
    /// the sign).
    pub quantity: Decimal,
    pub price: Decimal,
    pub timestamp: Timestamp,
    pub counterparty: String,
}

/// Parts of the quantity of `deal` signed by its direction: positive for
/// a buy, negative for a sell.
pub open spec fn spec_signed_quantity(deal: Deal) -> DecimalParts {
    match deal.direction {
        BuySell::Buy => deal.quantity@,
        BuySell::Sell => (!deal.quantity@.0, deal.quantity@.1, deal.quantity@.2),
    }
}

impl Clone for Deal {
    /// An identical deal.
    fn clone(&self) -> (r: Deal)
        ensures
            r == *self,
    {
        Deal {
            id: self.id.clone(),
            instrument_id: self.instrument_id.clone(),
            direction: self.direction,
            quantity: self.quantity,
            price: self.price,
            timestamp: self.timestamp,
            counterparty: self.counterparty.clone(),
        }
    }
}

impl Deal {
    /// The quantity signed by direction: `+quantity` for a buy,
    /// `-quantity` for a sell.
    pub fn signed_quantity(&self) -> (r: Decimal)
        ensures
            r@ == spec_signed_quantity(*self),
    {
        match self.direction {
            BuySell::Buy => self.quantity,
            BuySell::Sell => self.quantity.neg(),
        }
    }
}

} // verus!
