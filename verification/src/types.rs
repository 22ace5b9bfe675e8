//! Trades, the aggregation basis, and the fixed-point convention.
//!
//! Prices, sizes and volumes are fixed-point numbers: the integer `n` stands
//! for the quantity `n / SCALE`.

use vstd::prelude::*;
use vstd::math::abs;
use crate::errors::AggregationError;

verus! {

/// Number of fixed-point units that make up one whole unit of price, size or
/// volume.
pub const SCALE: i64 = 100_000_000;

/// The unit in which a trade reports its timestamp.
#[derive(Clone, Copy, Debug, PartialEq, Eq, Structural)]
pub enum TimestampResolution {
    Second,
    Millisecond,
    Microsecond,
    Nanosecond,
}

impl TimestampResolution {
    /// How many timestamp units of this resolution make up one second.
    pub open spec fn units_per_second(self) -> int {
        match self {
            TimestampResolution::Second => 1,
            TimestampResolution::Millisecond => 1_000,
            TimestampResolution::Microsecond => 1_000_000,
            TimestampResolution::Nanosecond => 1_000_000_000,
        }
    }

    /// Executable counterpart of [`Self::units_per_second`].
    pub fn per_second(self) -> (n: u32)
        ensures
            n == self.units_per_second(),
    {
        match self {
            TimestampResolution::Second => 1,
            TimestampResolution::Millisecond => 1_000,
            TimestampResolution::Microsecond => 1_000_000,
            TimestampResolution::Nanosecond => 1_000_000_000,
        }
    }
}

/// What the engine reads from a trade, whatever its concrete representation.
pub ghost struct TradeView {
    pub timestamp: i64,
    pub resolution: TimestampResolution,
    pub price: i64,
    pub size: i64,
}

/// Capability contract of a taker trade.
///
/// Any type that offers these four pure accessors can be fed to an
/// aggregator. The accessors must agree with the type's view, which is how
/// contracts speak of a trade.
pub trait TakerTrade: View<V = TradeView> {
    /// The time of the trade, in units of [`Self::timestamp_resolution`].
    fn timestamp(&self) -> (r: i64)
        ensures
            r == self@.timestamp,
    ;

    /// The unit of the integer returned by [`Self::timestamp`].
    fn timestamp_resolution(&self) -> (r: TimestampResolution)
        ensures
            r == self@.resolution,
    ;

    /// Fill price of the transaction, in fixed-point units.
    fn price(&self) -> (r: i64)
        ensures
            r == self@.price,
    ;

    /// Traded amount in quote currency, in fixed-point units.
    /// A negative value marks a taker sell.
    fn size(&self) -> (r: i64)
        ensures
            r == self@.size,
    ;
}

/// A taker trade with a millisecond timestamp.
#[derive(Clone, Copy, Debug, PartialEq, Eq, Structural)]
pub struct Trade {
    /// Timestamp in milliseconds.
    pub timestamp: i64,
    /// Price of the asset, in fixed-point units.
    pub price: i64,
    /// Size of the trade in quote currency, in fixed-point units.
    /// Negative values indicate a taker sell.
    pub size: i64,
}

impl View for Trade {
    type V = TradeView;

    open spec fn view(&self) -> TradeView {
        TradeView {
            timestamp: self.timestamp,
            resolution: TimestampResolution::Millisecond,
            price: self.price,
            size: self.size,
        }
    }
}

impl Default for Trade {
    fn default() -> (r: Trade)
        ensures
            r == (Trade { timestamp: 0, price: 0, size: 0 }),
    {
        Trade { timestamp: 0, price: 0, size: 0 }
    }
}

impl TakerTrade for Trade {
    #[inline(always)]
    fn timestamp(&self) -> (r: i64) {
        self.timestamp
    }

    #[inline(always)]
    fn timestamp_resolution(&self) -> (r: TimestampResolution) {
        TimestampResolution::Millisecond
    }

    #[inline(always)]
    fn price(&self) -> (r: i64) {
        self.price
    }

    #[inline(always)]
    fn size(&self) -> (r: i64) {
        self.size
    }
}

/// A taker trade that carries the unit of its timestamp.
#[derive(Clone, Copy, Debug, PartialEq, Eq, Structural)]
pub struct ResolvedTrade {
    /// Timestamp in units of `resolution`.
    pub timestamp: i64,
    /// The unit of `timestamp`.
    pub resolution: TimestampResolution,
    /// Price of the asset, in fixed-point units.
    pub price: i64,
    /// Size of the trade in quote currency, in fixed-point units.
    /// Negative values indicate a taker sell.
    pub size: i64,
}

impl View for ResolvedTrade {
    type V = TradeView;

    open spec fn view(&self) -> TradeView {
        TradeView {
            timestamp: self.timestamp,
            resolution: self.resolution,
            price: self.price,
            size: self.size,
        }
    }
}

impl TakerTrade for ResolvedTrade {
    #[inline(always)]
    fn timestamp(&self) -> (r: i64) {
        self.timestamp
    }

    #[inline(always)]
    fn timestamp_resolution(&self) -> (r: TimestampResolution) {
        self.resolution
    }

    #[inline(always)]
    fn price(&self) -> (r: i64) {
        self.price
    }

    #[inline(always)]
    fn size(&self) -> (r: i64) {
        self.size
    }
}

/// The quotient of `a` by `b` rounded toward zero.
pub open spec fn quotient_toward_zero(a: int, b: int) -> int
    recommends
        b != 0,
{
    if (a < 0) == (b < 0) {
        (abs(a) / abs(b)) as int
    } else {
        -((abs(a) / abs(b)) as int)
    }
}

/// Defines how the size of a trade counts toward volume: in base currency
/// or in quote currency. Trade sizes are denoted in quote currency.
#[derive(Clone, Copy, Debug, PartialEq, Eq, Structural)]
pub enum By {
    /// Divide the size by the price, which converts it into base currency.
    Base,
    /// Take the size as it is.
    Quote,
}

impl By {
    /// The signed volume that a trade adds under this basis, in fixed-point
    /// units: its size for `Quote`, and for `Base` its size divided by its
    /// price, rounded toward zero. A price of zero has no `Base` volume.
    pub open spec fn contribution(self, t: TradeView) -> Result<int, AggregationError> {
        match self {
            By::Quote => Ok(t.size as int),
            By::Base => if t.price == 0 {
                Err(AggregationError::InvalidBasisArithmetic)
            } else {
                Ok(quotient_toward_zero(t.size * SCALE, t.price as int))
            },
        }
    }

    /// Computes [`Self::contribution`] for `trade`.
    pub fn volume_contribution<T: TakerTrade>(&self, trade: &T) -> (r: Result<i128, AggregationError>)
        ensures
            match self.contribution(trade@) {
                Ok(v) => r == Ok::<i128, AggregationError>(v as i128) && i128::MIN <= v <= i128::MAX,
                Err(e) => r == Err::<i128, AggregationError>(e),
            },
    {
        let size = trade.size();
        match self {
            By::Quote => Ok(size as i128),
            By::Base => {
                let price = trade.price();
                if price == 0 {
                    return Err(AggregationError::InvalidBasisArithmetic);
                }
                let scaled: u128 = magnitude(size) * (SCALE as u128);
                let divisor: u128 = magnitude(price);
                let q: u128 = scaled / divisor;
                assert(q <= scaled) by (nonlinear_arith)
                    requires
                        q == scaled / divisor,
                        divisor >= 1,
                ;
                assert(abs(size * SCALE) == abs(size as int) * SCALE) by (nonlinear_arith);
                if (size < 0) == (price < 0) {
                    Ok(q as i128)
                } else {
                    Ok(-(q as i128))
                }
            }
        }
    }
}

/// The absolute value of a 64-bit integer, which always fits 128 bits.
pub fn magnitude(x: i64) -> (m: u128)
    ensures
        m == abs(x as int),
{
    if x < 0 {
        (-(x as i128)) as u128
    } else {
        x as u128
    }
}

} // verus!
