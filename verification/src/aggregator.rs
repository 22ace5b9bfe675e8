//! The streaming aggregation engine.
//!
//! An aggregator is either empty or holds the running period. Each trade is
//! folded into the period in one pass; the trade that brings the period's
//! trigger to its threshold closes the period and hands its candle out.

use vstd::prelude::*;
use vstd::math::abs;
use crate::candle::ModularCandle;
use crate::errors::AggregationError;
use crate::types::{By, TakerTrade, TradeView};

verus! {

/// The rule that decides when a period ends.
#[derive(Clone, Copy, Debug, PartialEq, Eq, Structural)]
pub enum TriggerRule {
    /// The time elapsed since the first trade of the period, with a
    /// threshold in milliseconds.
    Time,
    /// The sum of the absolute volumes of the period's trades under the
    /// aggregator's basis, with a threshold in fixed-point units.
    Volume,
    /// The number of trades in the period.
    Tick,
}

impl TriggerRule {
    /// What a trade of signed volume `v` adds to the running total that the
    /// rule keeps. The time rule keeps none: it goes by timestamps.
    pub open spec fn advance(self, v: int) -> nat {
        match self {
            TriggerRule::Time => 0,
            TriggerRule::Volume => abs(v),
            TriggerRule::Tick => 1,
        }
    }
}

/// Whether the time from `start` to the trade `t`, both in the timestamp
/// units of `t`, amounts to at least `threshold` milliseconds.
pub open spec fn span_reaches(start: i64, t: TradeView, threshold: nat) -> bool {
    (t.timestamp - start) * 1000 >= threshold * t.resolution.units_per_second()
}

/// The running period of an aggregator.
pub ghost struct Running<C> {
    /// The candle of the trades folded so far.
    pub candle: C,
    /// Timestamp of the first trade of the period.
    pub start: i64,
    /// The running total of the trigger rule.
    pub progress: nat,
}

/// The state of an aggregator: its fixed configuration and the running
/// period, if there is one.
pub ghost struct EngineState<C> {
    pub rule: TriggerRule,
    pub threshold: nat,
    pub basis: By,
    pub running: Option<Running<C>>,
}

impl<C> EngineState<C> {
    /// The state of a new aggregator.
    pub open spec fn empty(rule: TriggerRule, threshold: nat, basis: By) -> EngineState<C> {
        EngineState { rule, threshold, basis, running: None }
    }

    /// This state with its period replaced.
    pub open spec fn with_running(self, running: Option<Running<C>>) -> EngineState<C> {
        EngineState { rule: self.rule, threshold: self.threshold, basis: self.basis, running }
    }

    /// Whether a period that began at `start` and has the running total
    /// `progress` is at its threshold once the trade `t` is folded in.
    /// The comparison is inclusive.
    pub open spec fn reached(self, start: i64, progress: nat, t: TradeView) -> bool {
        match self.rule {
            TriggerRule::Time => span_reaches(start, t, self.threshold),
            TriggerRule::Volume => progress >= self.threshold,
            TriggerRule::Tick => progress >= self.threshold,
        }
    }

    /// One update with the trade `t`: the next state and the candle handed
    /// out, or the error.
    ///
    /// A trade without a volume under the basis is refused, and so is one
    /// that the candle refuses or that would take the rule's running total
    /// out of range. The first trade of a period only begins it.
    /// Every further trade is folded in and the trigger is then tested: at
    /// or above the threshold the period's candle is handed out and the
    /// state is empty again.
    pub open spec fn step<T: TakerTrade>(self, t: TradeView) -> Result<
        (EngineState<C>, Option<C>),
        AggregationError,
    > where C: ModularCandle<T> {
        match self.basis.contribution(t) {
            Err(e) => Err(e),
            Ok(v) => match self.running {
                None => match C::init_spec(t, self.basis) {
                    Err(e) => Err(e),
                    Ok(candle) => Ok(
                        (
                            self.with_running(
                                Some(
                                    Running {
                                        candle,
                                        start: t.timestamp,
                                        progress: self.rule.advance(v),
                                    },
                                ),
                            ),
                            None,
                        ),
                    ),
                },
                Some(period) => {
                    let progress = period.progress + self.rule.advance(v);
                    if progress > u128::MAX {
                        Err(AggregationError::Overflow)
                    } else {
                        match period.candle.update_spec(t, self.basis) {
                            Err(e) => Err(e),
                            Ok(candle) => if self.reached(period.start, progress, t) {
                                Ok((self.with_running(None), Some(candle)))
                            } else {
                                Ok(
                                    (
                                        self.with_running(
                                            Some(Running { candle, start: period.start, progress }),
                                        ),
                                        None,
                                    ),
                                )
                            },
                        }
                    }
                },
            },
        }
    }
}

/// Something that turns a stream of trades into candles, one trade at a
/// time.
pub trait Aggregator<C, T: TakerTrade>: View {
    /// What one update does to the state and which candle it hands out, or
    /// the error with which it refuses the trade.
    spec fn step_spec(state: Self::V, t: TradeView) -> Result<(Self::V, Option<C>), AggregationError>;

    /// Folds one trade into the aggregation and returns the candle of the
    /// period if the trade closed it. A refused trade leaves the aggregator
    /// as it was.
    fn update(&mut self, trade: &T) -> (r: Result<Option<C>, AggregationError>)
        ensures
            match Self::step_spec(old(self)@, trade@) {
                Ok((next, out)) => r == Ok::<Option<C>, AggregationError>(out) && final(self)@ == next,
                Err(e) => r == Err::<Option<C>, AggregationError>(e) && final(self)@ == old(self)@,
            },
    ;
}

struct Period<C> {
    candle: C,
    start: i64,
    progress: u128,
}

/// An aggregator over any candle type, with one of the three trigger rules.
pub struct GenericAggregator<C> {
    rule: TriggerRule,
    threshold: u64,
    basis: By,
    period: Option<Period<C>>,
}

impl<C> View for GenericAggregator<C> {
    type V = EngineState<C>;

    closed spec fn view(&self) -> EngineState<C> {
        EngineState {
            rule: self.rule,
            threshold: self.threshold as nat,
            basis: self.basis,
            running: match self.period {
                Some(p) => Some(
                    Running { candle: p.candle, start: p.start, progress: p.progress as nat },
                ),
                None => None,
            },
        }
    }
}

impl<C> GenericAggregator<C> {
    /// A new, empty aggregator that closes a period once `rule` reaches
    /// `threshold`: milliseconds for `Time`, fixed-point volume units for
    /// `Volume`, trades for `Tick`.
    pub fn new(rule: TriggerRule, threshold: u64, basis: By) -> (r: Self)
        requires
            threshold > 0,
        ensures
            r@ == EngineState::<C>::empty(rule, threshold as nat, basis),
    {
        GenericAggregator { rule, threshold, basis, period: None }
    }

    /// The trigger rule this aggregator was built with.
    pub fn rule(&self) -> (r: TriggerRule)
        ensures
            r == self@.rule,
    {
        self.rule
    }

    /// The threshold this aggregator was built with.
    pub fn threshold(&self) -> (r: u64)
        ensures
            r == self@.threshold,
    {
        self.threshold
    }

    /// The basis this aggregator was built with.
    pub fn basis(&self) -> (r: By)
        ensures
            r == self@.basis,
    {
        self.basis
    }

    /// Whether no trade has been folded since the last candle was handed
    /// out.
    pub fn is_empty(&self) -> (r: bool)
        ensures
            r == (self@.running is None),
    {
        self.period.is_none()
    }

    /// Hands out the candle of the running period as it stands and leaves
    /// the aggregator empty. Returns `None` if it was empty already.
    pub fn flush(&mut self) -> (r: Option<C>)
        ensures
            final(self)@ == old(self)@.with_running(None),
            match old(self)@.running {
                Some(period) => r == Some(period.candle),
                None => r is None,
            },
    {
        match self.period.take() {
            Some(p) => Some(p.candle),
            None => None,
        }
    }

    fn at_threshold<T: TakerTrade>(&self, start: i64, progress: u128, trade: &T) -> (r: bool)
        ensures
            r == self@.reached(start, progress as nat, trade@),
    {
        match self.rule {
            TriggerRule::Time => {
                let span: i128 = trade.timestamp() as i128 - start as i128;
                let per_second: u32 = trade.timestamp_resolution().per_second();
                assert(0 <= self.threshold * per_second <= 0xffff_ffff_ffff_ffff * 1_000_000_000)
                    by (nonlinear_arith)
                    requires
                        0 <= self.threshold <= 0xffff_ffff_ffff_ffff,
                        0 <= per_second <= 1_000_000_000,
                ;
                let bound: i128 = (self.threshold as i128) * (per_second as i128);
                span * 1000 >= bound
            },
            TriggerRule::Volume => progress >= self.threshold as u128,
            TriggerRule::Tick => progress >= self.threshold as u128,
        }
    }
}

impl<C: ModularCandle<T>, T: TakerTrade> Aggregator<C, T> for GenericAggregator<C> {
    open spec fn step_spec(state: EngineState<C>, t: TradeView) -> Result<
        (EngineState<C>, Option<C>),
        AggregationError,
    > {
        state.step::<T>(t)
    }

    fn update(&mut self, trade: &T) -> (r: Result<Option<C>, AggregationError>) {
        let volume = self.basis.volume_contribution(trade)?;
        let added: u128 = match self.rule {
            TriggerRule::Time => 0,
            TriggerRule::Volume => if volume < 0 {
                (-volume) as u128
            } else {
                volume as u128
            },
            TriggerRule::Tick => 1,
        };
        match self.period.take() {
            None => match C::init_from(trade, self.basis) {
                Ok(candle) => {
                    self.period = Some(Period { candle, start: trade.timestamp(), progress: added });
                    Ok(None)
                },
                Err(e) => Err(e),
            },
            Some(mut p) => {
                if p.progress > u128::MAX - added {
                    self.period = Some(p);
                    return Err(AggregationError::Overflow);
                }
                match p.candle.update_from(trade, self.basis) {
                    Ok(()) => {
                        let progress = p.progress + added;
                        if self.at_threshold(p.start, progress, trade) {
                            Ok(Some(p.candle))
                        } else {
                            p.progress = progress;
                            self.period = Some(p);
                            Ok(None)
                        }
                    },
                    Err(e) => {
                        self.period = Some(p);
                        Err(e)
                    },
                }
            },
        }
    }
}

} // verus!
