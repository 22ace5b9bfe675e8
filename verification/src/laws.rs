//! What holds of every run of an aggregator.
//!
//! The laws speak of the trades of the running period: those that were
//! folded since the last candle was handed out, or since the start of the
//! stream for the first candle.

use vstd::prelude::*;
use vstd::math::abs;
use crate::aggregator::{span_reaches, EngineState, GenericAggregator, TriggerRule};
use crate::candle::{
    all_have_volume, folded, is_highest_price, is_lowest_price, lemma_candle_summarizes,
    total_volume, volume_of, Candle, ModularCandle,
};
use crate::errors::AggregationError;
use crate::types::{quotient_toward_zero, By, TakerTrade, TimestampResolution, TradeView, SCALE};
use crate::utils::run;

verus! {

/// The sum of the absolute volumes of the trades `s` under `basis`.
pub open spec fn turnover(s: Seq<TradeView>, basis: By) -> nat
    decreases s.len(),
{
    if s.len() == 0 {
        0
    } else {
        turnover(s.drop_last(), basis) + abs(volume_of(s.last(), basis))
    }
}

/// The running total that `rule` keeps for a period of the trades `s`.
pub open spec fn total_of(rule: TriggerRule, basis: By, s: Seq<TradeView>) -> nat {
    match rule {
        TriggerRule::Time => 0,
        TriggerRule::Volume => turnover(s, basis),
        TriggerRule::Tick => s.len(),
    }
}

/// Whether a period of exactly the trades `s` is closed by its last trade
/// under the configuration of `state`: it holds at least two trades, and
/// with the last one the trigger is at or above the threshold.
pub open spec fn closes<C>(state: EngineState<C>, s: Seq<TradeView>) -> bool {
    s.len() >= 2 && state.reached(
        s[0].timestamp,
        total_of(state.rule, state.basis, s),
        s.last(),
    )
}

/// Whether the running period of `state` consists of exactly the trades
/// `s`, in order: the state is empty for no trades, and else its candle is
/// the trades folded, its start is the first timestamp, its running total
/// is that of the trades, and none of the trades before the last closed
/// the period.
pub open spec fn covers<C: ModularCandle<T>, T: TakerTrade>(
    state: EngineState<C>,
    s: Seq<TradeView>,
) -> bool {
    match state.running {
        None => s.len() == 0,
        Some(period) => {
            &&& s.len() > 0
            &&& all_have_volume(s, state.basis)
            &&& folded::<C, T>(s, state.basis) == Ok::<C, AggregationError>(period.candle)
            &&& period.start == s[0].timestamp
            &&& period.progress == total_of(state.rule, state.basis, s)
            &&& forall|k: int| 2 <= k <= s.len() ==> !closes(state, #[trigger] s.take(k))
        },
    }
}

/// One update keeps account of the period. If the running period is `s`
/// and the trade `t` is accepted without closing it, the period is then
/// `s` with `t` at its end. If `t` closes it, the candle handed out is the
/// fold of `s` with `t` at its end, the trigger is at its threshold there,
/// and the next period is empty.
pub proof fn lemma_step_covers<C: ModularCandle<T>, T: TakerTrade>(
    state: EngineState<C>,
    s: Seq<TradeView>,
    t: TradeView,
)
    requires
        covers::<C, T>(state, s),
    ensures
        match state.step::<T>(t) {
            Err(_) => true,
            Ok((next, None)) => covers::<C, T>(next, s.push(t)) && !closes(state, s.push(t)),
            Ok((next, Some(c))) => {
                &&& covers::<C, T>(next, Seq::empty())
                &&& s.len() > 0
                &&& all_have_volume(s.push(t), state.basis)
                &&& folded::<C, T>(s.push(t), state.basis) == Ok::<C, AggregationError>(c)
                &&& closes(state, s.push(t))
            },
        },
{
    let longer = s.push(t);
    assert(longer.drop_last() == s);
    assert(longer.last() == t);
    if state.step::<T>(t) is Ok {
        let next = state.step::<T>(t)->Ok_0.0;
        assert forall|i: int| 0 <= i < longer.len() implies (#[trigger] state.basis.contribution(
            longer[i],
        )) is Ok by {
            if i < s.len() {
                assert(longer[i] == s[i]);
            }
        }
        if s.len() > 0 {
            assert(longer[0] == s[0]);
            assert forall|k: int| 2 <= k <= s.len() implies !closes(
                next,
                #[trigger] longer.take(k),
            ) by {
                assert(longer.take(k) == s.take(k));
            }
            assert(longer.take(longer.len() as int) == longer);
        } else {
            assert(turnover(longer.drop_last(), state.basis) == 0);
        }
    }
}

/// The trades of the running period after the stream `w` was fed to an
/// aggregator that began in `start`: a trade that closes a period leaves
/// none, an accepted trade joins them, a refused trade changes nothing.
pub open spec fn period_after<C: ModularCandle<T>, T: TakerTrade>(
    start: EngineState<C>,
    w: Seq<TradeView>,
) -> Seq<TradeView>
    decreases w.len(),
{
    if w.len() == 0 {
        Seq::empty()
    } else {
        let before = period_after::<C, T>(start, w.drop_last());
        match run::<GenericAggregator<C>, C, T>(start, w.drop_last()).0.step::<T>(w.last()) {
            Ok((_, Some(_))) => Seq::empty(),
            Ok((_, None)) => before.push(w.last()),
            Err(_) => before,
        }
    }
}

/// After any stream fed to an aggregator that began empty, the state
/// accounts for exactly the trades accepted since the last candle.
pub proof fn lemma_run_covers<C: ModularCandle<T>, T: TakerTrade>(
    start: EngineState<C>,
    w: Seq<TradeView>,
)
    requires
        start.running is None,
    ensures
        covers::<C, T>(
            run::<GenericAggregator<C>, C, T>(start, w).0,
            period_after::<C, T>(start, w),
        ),
        run::<GenericAggregator<C>, C, T>(start, w).0.rule == start.rule,
        run::<GenericAggregator<C>, C, T>(start, w).0.threshold == start.threshold,
        run::<GenericAggregator<C>, C, T>(start, w).0.basis == start.basis,
    decreases w.len(),
{
    if w.len() > 0 {
        lemma_run_covers::<C, T>(start, w.drop_last());
        let mid = run::<GenericAggregator<C>, C, T>(start, w.drop_last()).0;
        lemma_step_covers::<C, T>(mid, period_after::<C, T>(start, w.drop_last()), w.last());
    }
}

/// A candle handed out covers the trades accepted since the one before it:
/// if the trade `t` closes a period after the stream `w`, the candle is the
/// fold of the trades of that period with `t` at their end, and with `t`
/// the period is at its threshold.
pub proof fn lemma_emitted_candle_folds_period<C: ModularCandle<T>, T: TakerTrade>(
    start: EngineState<C>,
    w: Seq<TradeView>,
    t: TradeView,
)
    requires
        start.running is None,
        run::<GenericAggregator<C>, C, T>(start, w).0.step::<T>(t) matches Ok((_, Some(_))),
    ensures
        ({
            let state = run::<GenericAggregator<C>, C, T>(start, w).0;
            let period = period_after::<C, T>(start, w).push(t);
            let c = state.step::<T>(t)->Ok_0.1->Some_0;
            &&& period.len() >= 2
            &&& folded::<C, T>(period, start.basis) == Ok::<C, AggregationError>(c)
            &&& closes(start, period)
        }),
{
    lemma_run_covers::<C, T>(start, w);
    let state = run::<GenericAggregator<C>, C, T>(start, w).0;
    lemma_step_covers::<C, T>(state, period_after::<C, T>(start, w), t);
}

/// The stock candle that is handed out counts and sums its period: its
/// count is the number of trades accepted since the last candle, the
/// closing trade included, its volume is the sum of their volumes under the
/// basis, it opens at the first price and closes at the last, its high and
/// low are the highest and lowest price, and it runs from the first
/// timestamp to the last.
pub proof fn lemma_emitted_candle_summarizes_period<T: TakerTrade>(
    start: EngineState<Candle>,
    w: Seq<TradeView>,
    t: TradeView,
)
    requires
        start.running is None,
        run::<GenericAggregator<Candle>, Candle, T>(start, w).0.step::<T>(t) matches Ok(
            (_, Some(_)),
        ),
    ensures
        ({
            let state = run::<GenericAggregator<Candle>, Candle, T>(start, w).0;
            let period = period_after::<Candle, T>(start, w).push(t);
            let c = state.step::<T>(t)->Ok_0.1->Some_0;
            &&& c.count == period.len()
            &&& c.volume == total_volume(period, start.basis)
            &&& c.open == period[0].price
            &&& c.close == t.price
            &&& is_highest_price(period, c.high)
            &&& is_lowest_price(period, c.low)
            &&& c.start == period[0].timestamp
            &&& c.end == t.timestamp
        }),
{
    lemma_emitted_candle_folds_period::<Candle, T>(start, w, t);
    let period = period_after::<Candle, T>(start, w).push(t);
    lemma_candle_summarizes::<T>(period, start.basis);
}

/// Whether the update with the trade at place `i` of the stream `w`, in the
/// state that the trades before it led to from `start`, hands out the
/// candle `c`.
pub open spec fn handed_out_at<C: ModularCandle<T>, T: TakerTrade>(
    start: EngineState<C>,
    w: Seq<TradeView>,
    i: int,
    c: C,
) -> bool {
    run::<GenericAggregator<C>, C, T>(start, w.take(i)).0.step::<T>(w[i]) matches Ok((_, out))
        && out == Some(c)
}

/// Every candle that a run hands out was handed out by one of its updates:
/// for the candle at place `j` of the output there is a trade of the stream
/// whose update, in the state that the trades before it led to, handed out
/// that candle. The laws on one update therefore hold of every candle that
/// a batch returns.
pub proof fn lemma_run_candles_come_from_updates<C: ModularCandle<T>, T: TakerTrade>(
    start: EngineState<C>,
    w: Seq<TradeView>,
    j: int,
)
    requires
        0 <= j < run::<GenericAggregator<C>, C, T>(start, w).1.len(),
    ensures
        exists|i: int|
            0 <= i < w.len() && handed_out_at::<C, T>(
                start,
                w,
                i,
                run::<GenericAggregator<C>, C, T>(start, w).1[j],
            ),
    decreases w.len(),
{
    let c = run::<GenericAggregator<C>, C, T>(start, w).1[j];
    let front = w.drop_last();
    let before = run::<GenericAggregator<C>, C, T>(start, front).1;
    if j < before.len() {
        lemma_run_candles_come_from_updates::<C, T>(start, front, j);
        let i = choose|i: int| 0 <= i < front.len() && handed_out_at::<C, T>(start, front, i, c);
        assert(front.take(i) == w.take(i));
        assert(front[i] == w[i]);
        assert(handed_out_at::<C, T>(start, w, i, c));
    } else {
        let i = w.len() - 1;
        assert(w.take(i) == front);
        assert(handed_out_at::<C, T>(start, w, i, c));
    }
}

/// What one trade adds to the volume: its size under the quote basis, and
/// under the base basis its size divided by its price, rounded toward zero.
pub proof fn lemma_volume_of_trade(t: TradeView)
    ensures
        volume_of(t, By::Quote) == t.size,
        t.price != 0 ==> volume_of(t, By::Base) == quotient_toward_zero(
            t.size * SCALE,
            t.price as int,
        ),
{
}

/// The absolute volume of one trade is at most the largest size times
/// `SCALE`.
pub proof fn lemma_volume_of_trade_is_bounded(t: TradeView, basis: By)
    ensures
        abs(volume_of(t, basis)) <= 0x8000_0000_0000_0000 * SCALE,
{
    if basis == By::Base && t.price != 0 {
        let a = abs(t.size * SCALE);
        let b = abs(t.price as int);
        assert(a / b <= a) by (nonlinear_arith)
            requires
                b >= 1,
                a >= 0,
        ;
        assert(a <= 0x8000_0000_0000_0000 * SCALE) by (nonlinear_arith)
            requires
                a == abs(t.size * SCALE),
                -0x8000_0000_0000_0000 <= t.size <= 0x8000_0000_0000_0000,
                SCALE == 100_000_000,
        ;
    }
}

/// The running total of the trigger rule stays in range: with a threshold
/// of at most 64 bits, no state that accounts for a period refuses a trade
/// because of its running total.
pub proof fn lemma_running_total_stays_in_range<C: ModularCandle<T>, T: TakerTrade>(
    state: EngineState<C>,
    s: Seq<TradeView>,
    t: TradeView,
)
    requires
        covers::<C, T>(state, s),
        state.threshold <= u64::MAX,
    ensures
        state.running matches Some(period) ==> period.progress + state.rule.advance(
            volume_of(t, state.basis),
        ) <= u128::MAX,
{
    if s.len() > 0 {
        lemma_volume_of_trade_is_bounded(t, state.basis);
        if s.len() >= 2 {
            assert(s.take(s.len() as int) == s);
            assert(!closes(state, s.take(s.len() as int)));
        } else {
            assert(turnover(s.drop_last(), state.basis) == 0);
            lemma_volume_of_trade_is_bounded(s.last(), state.basis);
        }
    }
}

/// A period under the time rule spans at least the threshold and no trade
/// before the closing one does: when the trade `t` closes the period `s`,
/// the time from the first trade of `s` to `t` reaches the threshold, and
/// the time from the first to the last trade of `s` does not. For
/// millisecond timestamps this is a plain difference of timestamps.
pub proof fn lemma_time_period_spans_threshold<C: ModularCandle<T>, T: TakerTrade>(
    state: EngineState<C>,
    s: Seq<TradeView>,
    t: TradeView,
)
    requires
        state.rule == TriggerRule::Time,
        state.threshold > 0,
        covers::<C, T>(state, s),
        state.step::<T>(t) matches Ok((_, Some(_))),
    ensures
        s.len() > 0,
        span_reaches(s[0].timestamp, t, state.threshold),
        !span_reaches(s[0].timestamp, s.last(), state.threshold),
        t.resolution == TimestampResolution::Millisecond ==> t.timestamp - s[0].timestamp
            >= state.threshold,
        s.last().resolution == TimestampResolution::Millisecond ==> s.last().timestamp
            - s[0].timestamp < state.threshold,
{
    lemma_step_covers::<C, T>(state, s, t);
    let longer = s.push(t);
    assert(longer[0] == s[0]);
    assert(longer.last() == t);
    if s.len() >= 2 {
        assert(s.take(s.len() as int) == s);
        assert(!closes(state, s.take(s.len() as int)));
    } else {
        assert(s.last() == s[0]);
        assert(state.threshold * s[0].resolution.units_per_second() > 0) by (nonlinear_arith)
            requires
                state.threshold > 0,
                s[0].resolution.units_per_second() > 0,
        ;
    }
}

/// A period under the volume rule holds at least the threshold when it
/// closes and less before: when the trade `t` closes the period `s`, the
/// absolute volume of `s` with `t` is at or above the threshold, and that
/// of `s` alone is below it. The first trade of a period never closes it,
/// so a period of one trade may already be at the threshold; the law
/// leaves that case out.
pub proof fn lemma_volume_period_reaches_threshold<C: ModularCandle<T>, T: TakerTrade>(
    state: EngineState<C>,
    s: Seq<TradeView>,
    t: TradeView,
)
    requires
        state.rule == TriggerRule::Volume,
        covers::<C, T>(state, s),
        state.step::<T>(t) matches Ok((_, Some(_))),
        s.len() >= 2 || turnover(s, state.basis) < state.threshold,
    ensures
        turnover(s.push(t), state.basis) >= state.threshold,
        turnover(s, state.basis) < state.threshold,
{
    lemma_step_covers::<C, T>(state, s, t);
    if s.len() >= 2 {
        assert(s.take(s.len() as int) == s);
        assert(!closes(state, s.take(s.len() as int)));
    }
}

/// A period under the tick rule holds exactly as many trades as the
/// threshold says, and two where the threshold is one: the first trade of
/// a period never closes it.
pub proof fn lemma_tick_period_counts_threshold<C: ModularCandle<T>, T: TakerTrade>(
    state: EngineState<C>,
    s: Seq<TradeView>,
    t: TradeView,
)
    requires
        state.rule == TriggerRule::Tick,
        covers::<C, T>(state, s),
        state.step::<T>(t) matches Ok((_, Some(_))),
    ensures
        s.len() + 1 == if state.threshold >= 2 {
            state.threshold
        } else {
            2
        },
{
    lemma_step_covers::<C, T>(state, s, t);
    if s.len() >= 2 {
        assert(s.take(s.len() as int) == s);
        assert(!closes(state, s.take(s.len() as int)));
    }
}

/// Two aggregators that are configured alike and hold the same period do
/// the same with trades of the same timestamp, resolution, price and size:
/// they reach the same state and hand out the same candle, or refuse with
/// the same error.
pub proof fn lemma_step_is_deterministic<C: ModularCandle<T>, T: TakerTrade>(
    a: EngineState<C>,
    b: EngineState<C>,
    t: TradeView,
    u: TradeView,
)
    requires
        a.rule == b.rule,
        a.threshold == b.threshold,
        a.basis == b.basis,
        a.running == b.running,
        t.timestamp == u.timestamp,
        t.resolution == u.resolution,
        t.price == u.price,
        t.size == u.size,
    ensures
        a.step::<T>(t) == b.step::<T>(u),
{
}

/// Two aggregators that are configured alike and begin empty hand out the
/// same candles, in the same order, for streams of trades with the same
/// timestamps, resolutions, prices and sizes, and end in the same state.
pub proof fn lemma_run_is_deterministic<C: ModularCandle<T>, T: TakerTrade>(
    rule: TriggerRule,
    threshold: nat,
    basis: By,
    v: Seq<TradeView>,
    w: Seq<TradeView>,
)
    requires
        v.len() == w.len(),
        forall|i: int|
            0 <= i < v.len() ==> {
                &&& (#[trigger] v[i]).timestamp == (#[trigger] w[i]).timestamp
                &&& v[i].resolution == w[i].resolution
                &&& v[i].price == w[i].price
                &&& v[i].size == w[i].size
            },
    ensures
        run::<GenericAggregator<C>, C, T>(EngineState::empty(rule, threshold, basis), v) == run::<
            GenericAggregator<C>,
            C,
            T,
        >(EngineState::empty(rule, threshold, basis), w),
{
    assert(v =~= w);
}

/// A stream of no trades hands out no candle and leaves the aggregator as
/// it was: a new aggregator stays empty.
pub proof fn lemma_run_of_nothing<C: ModularCandle<T>, T: TakerTrade>(state: EngineState<C>)
    ensures
        run::<GenericAggregator<C>, C, T>(state, Seq::empty()) == (state, Seq::<C>::empty()),
        EngineState::<C>::empty(state.rule, state.threshold, state.basis).running is None,
{
}

} // verus!
