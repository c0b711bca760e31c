use crate::decimal::{failure_name, failure_text, DecimalFailure, DecimalNumberParsingError};
use vstd::prelude::*;
use vstd::string::StringExecFns;

verus! {

/// Why a text could not be read as an amount of gas.
#[derive(Debug, Clone, PartialEq, Eq)]
pub enum NearGasError {
    /// The number in front of the unit is not a valid amount.
    IncorrectNumber(DecimalNumberParsingError),
    /// The unit is missing or unknown; carries the text as received.
    IncorrectUnit(String),
}

/// A text parse failure with its text as characters.
pub enum GasTextFailure {
    IncorrectNumber(DecimalFailure),
    IncorrectUnit(Seq<char>),
}

impl View for NearGasError {
    type V = GasTextFailure;

    open spec fn view(&self) -> GasTextFailure {
        match self {
            NearGasError::IncorrectNumber(e) => GasTextFailure::IncorrectNumber(e@),
            NearGasError::IncorrectUnit(s) => GasTextFailure::IncorrectUnit(s@),
        }
    }
}

/// The debug form of a string: quoted, with escapes.
pub uninterp spec fn str_debug(s: Seq<char>) -> Seq<char>;

/// Relies on `<str as Debug>::fmt` for the quoted, escaped form of a string.
#[verifier::external_body]
pub(crate) fn debug_quoted(s: &str) -> (r: String)
    ensures
        r@ == str_debug(s@),
{
    format!("{:?}", s)
}

/// The message that describes a text parse failure.
pub open spec fn gas_failure_message(e: GasTextFailure) -> Seq<char> {
    match e {
        GasTextFailure::IncorrectNumber(d) => "Incorrect number: "@ + failure_name(d) + "("@
            + str_debug(failure_text(d)) + ")"@,
        GasTextFailure::IncorrectUnit(s) => "Incorrect unit: "@ + s,
    }
}

impl NearGasError {
    /// The message that describes the failure, such as
    /// `Incorrect number: InvalidNumber("-1")` or `Incorrect unit: 0 pas`.
    pub fn to_string(&self) -> (r: String)
        ensures
            r@ == gas_failure_message(self@),
    {
        match self {
            NearGasError::IncorrectNumber(e) => {
                let mut r = "Incorrect number: ".to_owned();
                r.append(e.debug_string().as_str());
                r
            },
            NearGasError::IncorrectUnit(s) => {
                let mut r = "Incorrect unit: ".to_owned();
                r.append(s.as_str());
                r
            },
        }
    }
}

} // verus!
