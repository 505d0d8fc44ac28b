//! Kinds and errors of the closed-form option models.

use vstd::prelude::*;
use vstd::string::StringExecFns;

verus! {

/// The type of an option, either `Put` or `Call`.
#[derive(Clone, Copy, Debug, PartialEq, Eq, Structural)]
pub enum OptionType {
    Put,
    Call,
}

impl OptionType {
    /// The name of the option type.
    pub open spec fn spec_name(self) -> Seq<char> {
        match self {
            OptionType::Put => "Put"@,
            OptionType::Call => "Call"@,
        }
    }

    /// Render the option type as its name.
    pub fn to_string(&self) -> (r: String)
        ensures
            r@ == self.spec_name(),
    {
        match self {
            OptionType::Put => String::from_str("Put"),
            OptionType::Call => String::from_str("Call"),
        }
    }
}

/// A numerical routine that gave up. The best estimate and the error it
/// reached are carried as the bit patterns of their `f64` values.
#[derive(Debug)]
pub enum MathError {
    /// Comment, best estimate, error, iteration count.
    NonConvergeance(String, u64, u64, usize),
}

/// The errors of the option models.
#[derive(Debug)]
pub enum QlError {
    ModelDataError(String),
    MarketDataError(String),
    IvolNonConvergeance(String, MathError),
}

impl QlError {
    /// The text of the error as it is shown to users.
    pub open spec fn spec_message(&self) -> Seq<char> {
        match self {
            QlError::ModelDataError(e) => "GBSM incorrect model data: "@ + e@,
            QlError::MarketDataError(e) => "GBSM incorrect market data `"@ + e@ + "`"@,
            QlError::IvolNonConvergeance(e, _) => "ivol non-convergeance `"@ + e@ + "`"@,
        }
    }

    /// Render the error as text (see [`QlError::spec_message`]).
    pub fn to_string(&self) -> (r: String)
        ensures
            r@ == self.spec_message(),
    {
        match self {
            QlError::ModelDataError(e) => String::from_str("GBSM incorrect model data: ").concat(
                e.as_str(),
            ),
            QlError::MarketDataError(e) => String::from_str("GBSM incorrect market data `").concat(
                e.as_str(),
            ).concat("`"),
            QlError::IvolNonConvergeance(e, _) => String::from_str("ivol non-convergeance `").concat(
                e.as_str(),
            ).concat("`"),
        }
    }
}

} // verus!
