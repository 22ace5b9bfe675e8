//! The candle contract and the stock open/high/low/close candle.

use vstd::prelude::*;
use crate::errors::AggregationError;
use crate::types::{By, TakerTrade, TradeView};

verus! {

/// Contract of a candle that an aggregator can build.
///
/// A candle is begun from the first trade of a period and then takes the
/// further trades one by one. Both steps are functions of the trade's view
/// and the basis alone, given by `init_spec` and `update_spec`; a step that
/// fails leaves the candle as it was.
pub trait ModularCandle<T: TakerTrade>: Sized {
    /// The candle that holds exactly the trade `first`.
    spec fn init_spec(first: TradeView, basis: By) -> Result<Self, AggregationError>;

    /// The candle `self` after one more trade `t`.
    spec fn update_spec(self, t: TradeView, basis: By) -> Result<Self, AggregationError>;

    /// Begins a candle with the first trade of a period.
    fn init_from(first: &T, basis: By) -> (r: Result<Self, AggregationError>)
        ensures
            r == Self::init_spec(first@, basis),
    ;

    /// Folds one further trade into the candle.
    fn update_from(&mut self, trade: &T, basis: By) -> (r: Result<(), AggregationError>)
        ensures
            match old(self).update_spec(trade@, basis) {
                Ok(next) => r is Ok && *final(self) == next,
                Err(e) => r == Err::<(), AggregationError>(e) && *final(self) == *old(self),
            },
    ;
}

/// The candle that results from folding the trades `s` in order, or the
/// first error met on the way. Meaningful for a non-empty `s`.
pub open spec fn folded<C: ModularCandle<T>, T: TakerTrade>(s: Seq<TradeView>, basis: By) -> Result<
    C,
    AggregationError,
>
    decreases s.len(),
{
    if s.len() <= 1 {
        C::init_spec(s[0], basis)
    } else {
        match folded::<C, T>(s.drop_last(), basis) {
            Ok(c) => c.update_spec(s.last(), basis),
            Err(e) => Err(e),
        }
    }
}

/// Whether every trade of `s` has a volume under `basis`.
pub open spec fn all_have_volume(s: Seq<TradeView>, basis: By) -> bool {
    forall|i: int| 0 <= i < s.len() ==> (#[trigger] basis.contribution(s[i])) is Ok
}

/// The signed volume of one trade under `basis`, zero where it has none.
pub open spec fn volume_of(t: TradeView, basis: By) -> int {
    match basis.contribution(t) {
        Ok(v) => v,
        Err(_) => 0,
    }
}

/// The sum of the signed volumes of the trades `s` under `basis`.
pub open spec fn total_volume(s: Seq<TradeView>, basis: By) -> int
    decreases s.len(),
{
    if s.len() == 0 {
        0
    } else {
        total_volume(s.drop_last(), basis) + volume_of(s.last(), basis)
    }
}

/// Whether `p` is the highest price among the trades `s`.
pub open spec fn is_highest_price(s: Seq<TradeView>, p: i64) -> bool {
    &&& exists|i: int| 0 <= i < s.len() && (#[trigger] s[i]).price == p
    &&& forall|i: int| 0 <= i < s.len() ==> (#[trigger] s[i]).price <= p
}

/// Whether `p` is the lowest price among the trades `s`.
pub open spec fn is_lowest_price(s: Seq<TradeView>, p: i64) -> bool {
    &&& exists|i: int| 0 <= i < s.len() && (#[trigger] s[i]).price == p
    &&& forall|i: int| 0 <= i < s.len() ==> (#[trigger] s[i]).price >= p
}

/// Open, high, low and close price, volume and number of trades of one
/// period, with the timestamps of its first and last trade.
#[derive(Clone, Copy, Debug, PartialEq, Eq, Structural)]
pub struct Candle {
    /// Price of the first trade.
    pub open: i64,
    /// Highest price.
    pub high: i64,
    /// Lowest price.
    pub low: i64,
    /// Price of the last trade.
    pub close: i64,
    /// Sum of the signed volumes of the trades, in fixed-point units.
    pub volume: i128,
    /// Number of trades.
    pub count: u64,
    /// Timestamp of the first trade.
    pub start: i64,
    /// Timestamp of the last trade.
    pub end: i64,
}

impl Candle {
    /// The candle of the single trade `t`.
    pub open spec fn begun(t: TradeView, basis: By) -> Result<Candle, AggregationError> {
        match basis.contribution(t) {
            Ok(v) => Ok(
                Candle {
                    open: t.price,
                    high: t.price,
                    low: t.price,
                    close: t.price,
                    volume: v as i128,
                    count: 1,
                    start: t.timestamp,
                    end: t.timestamp,
                },
            ),
            Err(e) => Err(e),
        }
    }

    /// This candle with the trade `t` added at its end. The trade must have
    /// a volume, and the count and the volume must stay in range.
    pub open spec fn extended(self, t: TradeView, basis: By) -> Result<Candle, AggregationError> {
        match basis.contribution(t) {
            Ok(v) => if self.count == u64::MAX || self.volume + v < i128::MIN || self.volume + v
                > i128::MAX {
                Err(AggregationError::Overflow)
            } else {
                Ok(
                    Candle {
                        open: self.open,
                        high: if t.price > self.high {
                            t.price
                        } else {
                            self.high
                        },
                        low: if t.price < self.low {
                            t.price
                        } else {
                            self.low
                        },
                        close: t.price,
                        volume: (self.volume + v) as i128,
                        count: (self.count + 1) as u64,
                        start: self.start,
                        end: t.timestamp,
                    },
                )
            },
            Err(e) => Err(e),
        }
    }
}

impl<T: TakerTrade> ModularCandle<T> for Candle {
    open spec fn init_spec(first: TradeView, basis: By) -> Result<Candle, AggregationError> {
        Candle::begun(first, basis)
    }

    open spec fn update_spec(self, t: TradeView, basis: By) -> Result<Candle, AggregationError> {
        self.extended(t, basis)
    }

    fn init_from(first: &T, basis: By) -> (r: Result<Candle, AggregationError>) {
        let volume = basis.volume_contribution(first)?;
        let price = first.price();
        let timestamp = first.timestamp();
        Ok(
            Candle {
                open: price,
                high: price,
                low: price,
                close: price,
                volume,
                count: 1,
                start: timestamp,
                end: timestamp,
            },
        )
    }

    fn update_from(&mut self, trade: &T, basis: By) -> (r: Result<(), AggregationError>) {
        let added = basis.volume_contribution(trade)?;
        if self.count == u64::MAX {
            return Err(AggregationError::Overflow);
        }
        if added >= 0 && self.volume > i128::MAX - added {
            return Err(AggregationError::Overflow);
        }
        if added < 0 && self.volume < i128::MIN - added {
            return Err(AggregationError::Overflow);
        }
        let price = trade.price();
        if price > self.high {
            self.high = price;
        }
        if price < self.low {
            self.low = price;
        }
        self.close = price;
        self.volume = self.volume + added;
        self.count = self.count + 1;
        self.end = trade.timestamp();
        Ok(())
    }
}

/// A candle is the summary of the trades folded into it: whenever folding
/// the non-empty sequence `s` succeeds, the candle opens at the first price
/// and closes at the last, its high and low are the highest and the lowest
/// price, its volume is the sum of the trades' volumes under the basis, its
/// count is the number of trades, and it runs from the first timestamp to
/// the last.
pub proof fn lemma_candle_summarizes<T: TakerTrade>(s: Seq<TradeView>, basis: By)
    requires
        s.len() > 0,
        folded::<Candle, T>(s, basis) is Ok,
    ensures
        all_have_volume(s, basis),
        ({
            let c = folded::<Candle, T>(s, basis)->Ok_0;
            &&& c.open == s[0].price
            &&& c.close == s.last().price
            &&& is_highest_price(s, c.high)
            &&& is_lowest_price(s, c.low)
            &&& c.volume == total_volume(s, basis)
            &&& c.count == s.len()
            &&& c.start == s[0].timestamp
            &&& c.end == s.last().timestamp
        }),
    decreases s.len(),
{
    let c = folded::<Candle, T>(s, basis)->Ok_0;
    if s.len() == 1 {
        assert(s.drop_last().len() == 0);
        assert(total_volume(s.drop_last(), basis) == 0);
        assert(s[0].price == c.high);
        assert(s[0] == s.last());
    } else {
        let front = s.drop_last();
        lemma_candle_summarizes::<T>(front, basis);
        let b = folded::<Candle, T>(front, basis)->Ok_0;
        assert(c == b.extended(s.last(), basis)->Ok_0);
        assert forall|i: int| 0 <= i < s.len() implies (#[trigger] basis.contribution(s[i])) is Ok by {
            if i < front.len() {
                assert(front[i] == s[i]);
            }
        }
        let hi = choose|i: int| 0 <= i < front.len() && (#[trigger] front[i]).price == b.high;
        let lo = choose|i: int| 0 <= i < front.len() && (#[trigger] front[i]).price == b.low;
        assert(s[hi] == front[hi]);
        assert(s[lo] == front[lo]);
        assert(s[s.len() - 1] == s.last());
        assert forall|i: int| 0 <= i < s.len() implies (#[trigger] s[i]).price <= c.high by {
            if i < front.len() {
                assert(front[i] == s[i]);
            }
        }
        assert forall|i: int| 0 <= i < s.len() implies (#[trigger] s[i]).price >= c.low by {
            if i < front.len() {
                assert(front[i] == s[i]);
            }
        }
        assert(front[0] == s[0]);
    }
}

} // verus!
