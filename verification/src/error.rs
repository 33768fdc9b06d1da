//! The ways a run can fail. None is retried: each is decided by the input alone.

use vstd::prelude::*;

verus! {

/// The part of a raw record that is missing or has the wrong shape.
#[derive(Clone, Copy, Debug, PartialEq, Eq, Structural)]
pub enum Malformed {
    /// The time series is absent or no object.
    TimeSeries,
    /// The symbol is absent or no string.
    Symbol,
    /// An entry's opening price is absent or no string.
    Price,
    /// An entry's volume is absent or no string.
    Volume,
}

/// Why a step refuses its input.
#[derive(Clone, Copy, Debug, PartialEq, Eq, Structural)]
pub enum CustomError {
    /// The raw record does not have the expected shape.
    MalformedInput(Malformed),
    /// Fewer than two observations.
    InsufficientData,
    /// The feature rows and the labels differ in number.
    ShapeMismatch,
    /// Fewer than two distinct labels to train on.
    InsufficientClasses,
    /// A feature row is not as wide as the model was trained for.
    DimensionMismatch,
    /// Predicted and actual labels differ in number.
    LengthMismatch,
    /// Nothing to evaluate.
    EmptyInput,
}

impl Malformed {
    /// The description that [`Malformed::message`] gives.
    pub open spec fn message_spec(self) -> Seq<char> {
        match self {
            Malformed::TimeSeries => "Invalid JSON format"@,
            Malformed::Symbol => "Missing symbol"@,
            Malformed::Price => "Missing price"@,
            Malformed::Volume => "Missing volume"@,
        }
    }

    /// A short description for people.
    pub fn message(&self) -> (r: String)
        ensures
            r@ == self.message_spec(),
    {
        match self {
            Malformed::TimeSeries => "Invalid JSON format".to_owned(),
            Malformed::Symbol => "Missing symbol".to_owned(),
            Malformed::Price => "Missing price".to_owned(),
            Malformed::Volume => "Missing volume".to_owned(),
        }
    }
}

} // verus!
