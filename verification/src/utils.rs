//! Conveniences around the engine: batch aggregation, loading trades from
//! delimited text, and sizing volume candles.

use vstd::prelude::*;
use vstd::math::abs;
use crate::aggregator::Aggregator;
use crate::candle::ModularCandle;
use crate::errors::AggregationError;
use crate::parse::{decimal_of, integer_of, parse_decimal, parse_integer};
use crate::types::{magnitude, quotient_toward_zero, TakerTrade, Trade, TradeView};

verus! {

/// Number of minutes in a day.
pub const MINUTES_PER_DAY: u64 = 1440;

/// The candle volume that gives as many volume candles as there are time
/// candles of `target_time_minutes` in `total_time_days`, where
/// `total_volume` was traded over that time: the total volume divided by
/// the number of such candles, rounded toward zero. There is none for a
/// time of zero days.
pub open spec fn volume_per_time_candle(
    total_volume: i64,
    total_time_days: i64,
    target_time_minutes: i64,
) -> Option<int> {
    if total_time_days == 0 {
        None
    } else {
        Some(
            quotient_toward_zero(
                total_volume * target_time_minutes,
                total_time_days * MINUTES_PER_DAY,
            ),
        )
    }
}

/// Determines the candle volume which produces the same number of candles
/// as the given time aggregation.
///
/// All three arguments and the result are fixed-point numbers.
/// For example, 10 days of 1 hour candles are 240 candles; with a volume of
/// 9840 traded over those 10 days each volume candle should hold 41.
pub fn candle_volume_from_time_period(
    total_volume: i64,
    total_time_days: i64,
    target_time_minutes: i64,
) -> (r: Option<i128>)
    ensures
        match volume_per_time_candle(total_volume, total_time_days, target_time_minutes) {
            Some(v) => r == Some(v as i128) && i128::MIN <= v <= i128::MAX,
            None => r is None,
        },
{
    if total_time_days == 0 {
        return None;
    }
    let v = magnitude(total_volume);
    let m = magnitude(target_time_minutes);
    let d = magnitude(total_time_days);
    assert(v * m <= 0x8000_0000_0000_0000 * 0x8000_0000_0000_0000) by (nonlinear_arith)
        requires
            v <= 0x8000_0000_0000_0000,
            m <= 0x8000_0000_0000_0000,
    ;
    let dividend: u128 = v * m;
    assert(d * MINUTES_PER_DAY == d * 1440);
    let divisor: u128 = d * (MINUTES_PER_DAY as u128);
    let q: u128 = dividend / divisor;
    assert(q <= dividend) by (nonlinear_arith)
        requires
            q == dividend / divisor,
            divisor >= 1,
    ;
    let ghost a = total_volume * target_time_minutes;
    let ghost b = total_time_days * MINUTES_PER_DAY;
    assert(abs(a) == v * m && (a < 0 <==> (total_volume < 0) != (target_time_minutes < 0) && v * m
        != 0)) by (nonlinear_arith)
        requires
            a == total_volume * target_time_minutes,
            v == abs(total_volume as int),
            m == abs(target_time_minutes as int),
    ;
    let negative = ((total_volume < 0) != (target_time_minutes < 0)) != (total_time_days < 0);
    if negative {
        Some(-(q as i128))
    } else {
        Some(q as i128)
    }
}

/// The views of a sequence of trades.
pub open spec fn views<T: TakerTrade>(trades: Seq<T>) -> Seq<TradeView> {
    trades.map_values(|t: T| t@)
}

/// The state that an aggregator reaches from `state` over the trades
/// `trades`, and the candles it hands out on the way, in order. A trade
/// that the aggregator refuses is passed over.
pub open spec fn run<A: Aggregator<C, T>, C, T: TakerTrade>(
    state: A::V,
    trades: Seq<TradeView>,
) -> (A::V, Seq<C>)
    decreases trades.len(),
{
    if trades.len() == 0 {
        (state, Seq::empty())
    } else {
        let (mid, out) = run::<A, C, T>(state, trades.drop_last());
        match A::step_spec(mid, trades.last()) {
            Ok((next, Some(c))) => (next, out.push(c)),
            Ok((next, None)) => (next, out),
            Err(_) => (mid, out),
        }
    }
}

/// Applies an aggregator to all trades at once and returns the candles it
/// hands out, in the order in which they were closed.
///
/// A trade that the aggregator refuses is passed over: the aggregator is
/// not changed by it and the batch goes on with the next trade. Use
/// [`aggregate_trades_until_refused`] to learn of a refusal.
pub fn aggregate_all_trades<A, C, T>(trades: &[T], aggregator: &mut A) -> (out: Vec<C>) where
    A: Aggregator<C, T>,
    C: ModularCandle<T>,
    T: TakerTrade,

    ensures
        (final(aggregator)@, out@) == run::<A, C, T>(old(aggregator)@, views(trades@)),
        trades@.len() == 0 ==> out@.len() == 0 && final(aggregator)@ == old(aggregator)@,
{
    let mut out: Vec<C> = Vec::new();
    let mut i: usize = 0;
    let ghost all = views(trades@);
    assert(all.take(0) == Seq::<TradeView>::empty());
    while i < trades.len()
        invariant
            i <= trades@.len(),
            all == views(trades@),
            (aggregator@, out@) == run::<A, C, T>(old(aggregator)@, all.take(i as int)),
        decreases trades@.len() - i,
    {
        proof {
            let longer = all.take(i + 1);
            assert(longer.drop_last() == all.take(i as int));
            assert(longer.last() == trades@[i as int]@);
        }
        match aggregator.update(&trades[i]) {
            Ok(Some(candle)) => {
                out.push(candle);
            },
            Ok(None) => {},
            Err(_) => {},
        }
        i = i + 1;
    }
    assert(all.take(trades@.len() as int) == all);
    out
}

/// The index of the first trade of `trades` that an aggregator refuses when
/// it begins in `state` and takes the trades in order, or the number of
/// trades if it accepts them all.
pub open spec fn first_refusal<A: Aggregator<C, T>, C, T: TakerTrade>(
    state: A::V,
    trades: Seq<TradeView>,
) -> int
    decreases trades.len(),
{
    if trades.len() == 0 {
        0
    } else {
        let before = first_refusal::<A, C, T>(state, trades.drop_last());
        if before < trades.len() - 1 {
            before
        } else if A::step_spec(run::<A, C, T>(state, trades.drop_last()).0, trades.last()) is Err {
            trades.len() - 1
        } else {
            trades.len() as int
        }
    }
}

/// A refusal among the first trades is the first refusal however many
/// trades follow.
pub proof fn lemma_first_refusal_is_settled<A: Aggregator<C, T>, C, T: TakerTrade>(
    state: A::V,
    trades: Seq<TradeView>,
    k: int,
)
    requires
        0 <= k <= trades.len(),
        first_refusal::<A, C, T>(state, trades.take(k)) < k,
    ensures
        first_refusal::<A, C, T>(state, trades) == first_refusal::<A, C, T>(state, trades.take(k)),
    decreases trades.len() - k,
{
    if k < trades.len() {
        assert(trades.take(k + 1).drop_last() == trades.take(k));
        lemma_first_refusal_is_settled::<A, C, T>(state, trades, k + 1);
    } else {
        assert(trades.take(k) == trades);
    }
}

/// Applies an aggregator to the trades in order and stops at the first one
/// that it refuses.
///
/// Returns the candles handed out up to there, in the order in which they
/// were closed, and the index of the refused trade with the error, or
/// `None` if every trade was accepted. The aggregator is left as the trades
/// before the refused one made it, so the caller can pass over that trade
/// and go on with the rest, or stop.
pub fn aggregate_trades_until_refused<A, C, T>(trades: &[T], aggregator: &mut A) -> (out: (
    Vec<C>,
    Option<(usize, AggregationError)>,
)) where A: Aggregator<C, T>, C: ModularCandle<T>, T: TakerTrade
    ensures
        ({
            let stop = first_refusal::<A, C, T>(old(aggregator)@, views(trades@));
            &&& 0 <= stop <= trades@.len()
            &&& (final(aggregator)@, out.0@) == run::<A, C, T>(
                old(aggregator)@,
                views(trades@).take(stop),
            )
            &&& stop == trades@.len() ==> out.1 is None
            &&& stop < trades@.len() ==> (out.1 matches Some((index, e)) && index == stop
                && A::step_spec(final(aggregator)@, trades@[stop]@) == Err::<
                (A::V, Option<C>),
                AggregationError,
            >(e))
        }),
{
    let mut out: Vec<C> = Vec::new();
    let mut i: usize = 0;
    let ghost all = views(trades@);
    assert(all.take(0) == Seq::<TradeView>::empty());
    while i < trades.len()
        invariant
            i <= trades@.len(),
            all == views(trades@),
            first_refusal::<A, C, T>(old(aggregator)@, all.take(i as int)) == i,
            (aggregator@, out@) == run::<A, C, T>(old(aggregator)@, all.take(i as int)),
        decreases trades@.len() - i,
    {
        proof {
            let longer = all.take(i + 1);
            assert(longer.drop_last() == all.take(i as int));
            assert(longer.last() == trades@[i as int]@);
        }
        match aggregator.update(&trades[i]) {
            Ok(Some(candle)) => {
                out.push(candle);
            },
            Ok(None) => {},
            Err(e) => {
                proof {
                    lemma_first_refusal_is_settled::<A, C, T>(old(aggregator)@, all, i + 1);
                }
                return (out, Some((i, e)));
            },
        }
        i = i + 1;
    }
    assert(all.take(trades@.len() as int) == all);
    (out, None)
}

/// The error type of the `csv` crate, carried through unopened.
#[verifier::external_type_specification]
#[verifier::external_body]
pub struct ExCsvError(csv::Error);

/// The records that the `csv` crate reads from the text `data` with its
/// default settings, each record as the bytes of its fields in order, or
/// `None` where it reports an error. With those settings the first record
/// is taken for a header and left out, fields are separated by commas, and
/// all records must have the same number of fields.
pub uninterp spec fn csv_records(data: Seq<u8>) -> Option<Seq<Seq<Seq<u8>>>>;

/// Runs `csv::Reader::from_reader` over `data` and collects what its
/// `records` iterator yields, up to the first error.
///
/// Trusted: the result is what [`csv_records`] names, that is, reading the
/// same bytes always gives the same records or fails.
#[verifier::external_body]
fn read_csv_records(data: &[u8]) -> (r: Result<Vec<Vec<Vec<u8>>>, csv::Error>)
    ensures
        match r {
            Ok(rows) => csv_records(data@) == Some(rows.deep_view()),
            Err(_) => csv_records(data@) is None,
        },
{
    let mut reader = csv::Reader::from_reader(data);
    reader.records().map(
        |record| record.map(|row| row.iter().map(|field| field.as_bytes().to_vec()).collect()),
    ).collect()
}

/// The trade that a record writes: a timestamp in milliseconds as an
/// integer, then a price and a size as decimal numbers, in its first three
/// fields. Further fields are ignored.
///
/// A record with fewer fields, or with a field that does not write its
/// number, is `MalformedInputRow`; a price or a size that is written well
/// but lies outside the fixed-point range is `Overflow`.
pub open spec fn trade_of_record(row: Seq<Seq<u8>>) -> Result<Trade, AggregationError> {
    if row.len() < 3 {
        Err(AggregationError::MalformedInputRow)
    } else {
        match integer_of(row[0]) {
            None => Err(AggregationError::MalformedInputRow),
            Some(timestamp) => match decimal_of(row[1]) {
                Err(e) => Err(e),
                Ok(price) => match decimal_of(row[2]) {
                    Err(e) => Err(e),
                    Ok(size) => Ok(Trade { timestamp, price, size }),
                },
            },
        }
    }
}

/// The trades that the records `rows` write, one per record and in order.
/// One record that writes no trade fails the whole load, with the error of
/// the first such record.
pub open spec fn trades_of_records(rows: Seq<Seq<Seq<u8>>>) -> Result<Seq<Trade>, AggregationError>
    decreases rows.len(),
{
    if rows.len() == 0 {
        Ok(Seq::empty())
    } else {
        match trades_of_records(rows.drop_last()) {
            Err(e) => Err(e),
            Ok(trades) => match trade_of_record(rows.last()) {
                Err(e) => Err(e),
                Ok(trade) => Ok(trades.push(trade)),
            },
        }
    }
}

/// A load that fails on the first records fails in the same way however
/// many records follow.
pub proof fn lemma_failed_load_stays_failed(rows: Seq<Seq<Seq<u8>>>, k: int)
    requires
        0 <= k <= rows.len(),
        trades_of_records(rows.take(k)) is Err,
    ensures
        trades_of_records(rows) == trades_of_records(rows.take(k)),
    decreases rows.len() - k,
{
    if k < rows.len() {
        assert(rows.take(k + 1).drop_last() == rows.take(k));
        lemma_failed_load_stays_failed(rows, k + 1);
    } else {
        assert(rows.take(k) == rows);
    }
}

/// A load that succeeds gives one trade for each record, the trade that
/// the record at the same place writes.
pub proof fn lemma_load_keeps_every_record(rows: Seq<Seq<Seq<u8>>>)
    requires
        trades_of_records(rows) is Ok,
    ensures
        trades_of_records(rows)->Ok_0.len() == rows.len(),
        forall|i: int|
            0 <= i < rows.len() ==> trade_of_record(#[trigger] rows[i]) == Ok::<
                Trade,
                AggregationError,
            >(trades_of_records(rows)->Ok_0[i]),
    decreases rows.len(),
{
    if rows.len() > 0 {
        let front = rows.drop_last();
        lemma_load_keeps_every_record(front);
        assert forall|i: int| 0 <= i < rows.len() implies trade_of_record(#[trigger] rows[i])
            == Ok::<Trade, AggregationError>(trades_of_records(rows)->Ok_0[i]) by {
            if i < front.len() {
                assert(front[i] == rows[i]);
            }
        }
    }
}

/// Reads one record: see [`trade_of_record`].
pub fn trade_from_record(row: &[Vec<u8>]) -> (r: Result<Trade, AggregationError>)
    ensures
        r == trade_of_record(row.deep_view()),
{
    if row.len() < 3 {
        return Err(AggregationError::MalformedInputRow);
    }
    let ghost fields = row.deep_view();
    assert(fields[0] == row@[0]@ && fields[1] == row@[1]@ && fields[2] == row@[2]@);
    let timestamp = match parse_integer(row[0].as_slice()) {
        Some(t) => t,
        None => {
            return Err(AggregationError::MalformedInputRow);
        },
    };
    let price = parse_decimal(row[1].as_slice())?;
    let size = parse_decimal(row[2].as_slice())?;
    Ok(Trade { timestamp, price, size })
}

/// Turns records into trades: see [`trades_of_records`].
pub fn trades_from_records(rows: &[Vec<Vec<u8>>]) -> (r: Result<Vec<Trade>, AggregationError>)
    ensures
        match trades_of_records(rows.deep_view()) {
            Ok(trades) => r matches Ok(v) && v@ == trades,
            Err(e) => r == Err::<Vec<Trade>, AggregationError>(e),
        },
{
    let ghost table = rows.deep_view();
    let mut out: Vec<Trade> = Vec::new();
    let mut i: usize = 0;
    assert(table.take(0) == Seq::<Seq<Seq<u8>>>::empty());
    while i < rows.len()
        invariant
            i <= rows@.len(),
            table == rows.deep_view(),
            trades_of_records(table.take(i as int)) == Ok::<Seq<Trade>, AggregationError>(out@),
        decreases rows@.len() - i,
    {
        proof {
            assert(table[i as int] == rows@[i as int].deep_view());
            assert(table.take(i + 1).drop_last() == table.take(i as int));
            assert(table.take(i + 1).last() == table[i as int]);
        }
        match trade_from_record(rows[i].as_slice()) {
            Ok(trade) => {
                out.push(trade);
            },
            Err(e) => {
                proof {
                    lemma_failed_load_stays_failed(table, i + 1);
                }
                return Err(e);
            },
        }
        i = i + 1;
    }
    assert(table.take(rows@.len() as int) == table);
    Ok(out)
}

/// Loads trades from delimited text: a header line, then one record per
/// trade with the timestamp in milliseconds, the price and the size in its
/// first three fields. Price and size may be written in decimal or in
/// scientific notation; a field that names an infinity or not-a-number
/// writes no number.
///
/// Text that is not well-formed, or any record that does not write a trade,
/// fails the whole load with `MalformedInputRow`. A price or size outside
/// the fixed-point range fails it with `Overflow`.
pub fn load_trades_from_csv(data: &[u8]) -> (r: Result<Vec<Trade>, AggregationError>)
    ensures
        match csv_records(data@) {
            Some(rows) => match trades_of_records(rows) {
                Ok(trades) => r matches Ok(v) && v@ == trades,
                Err(e) => r == Err::<Vec<Trade>, AggregationError>(e),
            },
            None => r == Err::<Vec<Trade>, AggregationError>(AggregationError::MalformedInputRow),
        },
{
    match read_csv_records(data) {
        Ok(rows) => trades_from_records(rows.as_slice()),
        Err(_) => Err(AggregationError::MalformedInputRow),
    }
}

} // verus!
