//! Failures reported by the aggregation engine and the trade loader.

use vstd::prelude::*;

verus! {

/// Everything that can go wrong inside the library.
///
/// No failure is retried or repaired internally: every function that returns
/// one of these leaves the state it was given untouched, and the caller
/// decides whether to skip the offending input or to stop.
#[derive(Clone, Copy, Debug, PartialEq, Eq, Structural)]
pub enum AggregationError {
    /// A row of delimited text does not hold a timestamp, a price and a size
    /// in its first three fields, or the text is not well-formed at all.
    MalformedInputRow,
    /// A trade with price zero was offered to an aggregation by base
    /// currency, which would divide by zero.
    InvalidBasisArithmetic,
    /// A quantity does not fit its integer type: folding one more trade
    /// would push a counter or a sum of a candle past its range, or a price
    /// or size is written with a value outside the fixed-point range.
    Overflow,
}

} // verus!
