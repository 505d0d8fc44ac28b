use vstd::prelude::*;
use vstd::string::StringExecFns;

verus! {

/// The library's error type. Every variant carries the human-readable
/// detail of what went wrong.
#[derive(Debug)]
pub enum Error {
    Date(String),
    Interpolation(String),
    MarketData(String),
    Instrument(String),
    Model(String),
    Pricer(String),
    Curve(String),
    CashFlow(String),
    Config(String),
    NegativeForwardVariance { from: String, to: String },
    /// A (de)serialization failure, carried as its message.
    Serialization(String),
    /// An I/O failure, carried as its message.
    Io(String),
    Other(String),
}

/// Result type of the library.
pub type Result<T> = core::result::Result<T, Error>;

impl Error {
    /// The text of the error as it is shown to users: a category prefix
    /// followed by the detail.
    pub open spec fn spec_message(&self) -> Seq<char> {
        match self {
            Error::Date(s) => "date: "@ + s@,
            Error::Interpolation(s) => "interpolation: "@ + s@,
            Error::MarketData(s) => "market data: "@ + s@,
            Error::Instrument(s) => "instrument: "@ + s@,
            Error::Model(s) => "model: "@ + s@,
            Error::Pricer(s) => "pricer: "@ + s@,
            Error::Curve(s) => "curve: "@ + s@,
            Error::CashFlow(s) => "cash flow: "@ + s@,
            Error::Config(s) => "config: "@ + s@,
            Error::NegativeForwardVariance { from, to } => "negative forward variance from "@
                + from@ + " to "@ + to@,
            Error::Serialization(s) => s@,
            Error::Io(s) => s@,
            Error::Other(s) => s@,
        }
    }

    /// Render the error as text (see [`Error::spec_message`]).
    pub fn to_string(&self) -> (r: String)
        ensures
            r@ == self.spec_message(),
    {
        match self {
            Error::Date(s) => String::from_str("date: ").concat(s.as_str()),
            Error::Interpolation(s) => String::from_str("interpolation: ").concat(s.as_str()),
            Error::MarketData(s) => String::from_str("market data: ").concat(s.as_str()),
            Error::Instrument(s) => String::from_str("instrument: ").concat(s.as_str()),
            Error::Model(s) => String::from_str("model: ").concat(s.as_str()),
            Error::Pricer(s) => String::from_str("pricer: ").concat(s.as_str()),
            Error::Curve(s) => String::from_str("curve: ").concat(s.as_str()),
            Error::CashFlow(s) => String::from_str("cash flow: ").concat(s.as_str()),
            Error::Config(s) => String::from_str("config: ").concat(s.as_str()),
            Error::NegativeForwardVariance { from, to } => String::from_str(
                "negative forward variance from ",
            ).concat(from.as_str()).concat(" to ").concat(to.as_str()),
            Error::Serialization(s) => s.clone(),
            Error::Io(s) => s.clone(),
            Error::Other(s) => s.clone(),
        }
    }
}

} // verus!
