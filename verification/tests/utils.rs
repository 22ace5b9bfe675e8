use round::round;
use trade_aggregation::utils::{
    aggregate_all_trades, aggregate_trades_until_refused, candle_volume_from_time_period,
    load_trades_from_csv, trade_from_record, trades_from_records,
};
use trade_aggregation::{
    AggregationError, By, Candle, GenericAggregator, Trade, TriggerRule, SCALE,
};

fn fixed(x: i64) -> i64 {
    x * SCALE
}

fn as_float(x: i128) -> f64 {
    x as f64 / SCALE as f64
}

#[test]
fn test_candle_volume_from_time_period() {
    let total_volume = fixed(100);
    let time_days = fixed(10);
    let target_time_minutes = fixed(5);
    let vol_threshold =
        candle_volume_from_time_period(total_volume, time_days, target_time_minutes).unwrap();
    assert_eq!(round(as_float(vol_threshold), 3), 0.035);

    let total_volume = fixed(100);
    let time_days = fixed(10);
    let target_time_minutes = fixed(10);
    let vol_threshold =
        candle_volume_from_time_period(total_volume, time_days, target_time_minutes).unwrap();
    assert_eq!(round(as_float(vol_threshold), 3), 0.069);

    let total_volume = fixed(200);
    let time_days = fixed(10);
    let target_time_minutes = fixed(10);
    let vol_threshold =
        candle_volume_from_time_period(total_volume, time_days, target_time_minutes).unwrap();
    assert_eq!(round(as_float(vol_threshold), 3), 0.139);

    let total_volume = fixed(50);
    let time_days = fixed(10);
    let target_time_minutes = fixed(10);
    let vol_threshold =
        candle_volume_from_time_period(total_volume, time_days, target_time_minutes).unwrap();
    assert_eq!(round(as_float(vol_threshold), 3), 0.035);

    let total_volume = fixed(100);
    let time_days = fixed(5);
    let target_time_minutes = fixed(5);
    let vol_threshold =
        candle_volume_from_time_period(total_volume, time_days, target_time_minutes).unwrap();
    assert_eq!(round(as_float(vol_threshold), 3), 0.069);

    let total_volume = fixed(100);
    let time_days = fixed(5);
    let target_time_minutes = fixed(10);
    let vol_threshold =
        candle_volume_from_time_period(total_volume, time_days, target_time_minutes).unwrap();
    assert_eq!(round(as_float(vol_threshold), 3), 0.139);
}

#[test]
fn candle_volume_exact_values() {
    // 9840 traded over 10 days, one hour candles: 240 candles of 41 each.
    assert_eq!(
        candle_volume_from_time_period(fixed(9840), fixed(10), fixed(60)),
        Some(41 * SCALE as i128)
    );
    // 100 over 10 days at 5 minutes: 100 / 2880, cut after eight places.
    assert_eq!(candle_volume_from_time_period(fixed(100), fixed(10), fixed(5)), Some(3_472_222));
    // Rounding is toward zero for a negative volume too.
    assert_eq!(candle_volume_from_time_period(fixed(-100), fixed(10), fixed(5)), Some(-3_472_222));
    assert_eq!(candle_volume_from_time_period(fixed(100), fixed(-10), fixed(5)), Some(-3_472_222));
    assert_eq!(candle_volume_from_time_period(fixed(-100), fixed(-10), fixed(5)), Some(3_472_222));
    assert_eq!(candle_volume_from_time_period(fixed(100), fixed(10), 0), Some(0));
}

#[test]
fn candle_volume_of_no_time_is_none() {
    assert_eq!(candle_volume_from_time_period(fixed(100), 0, fixed(5)), None);
}

#[test]
fn candle_volume_at_the_limits() {
    let r = candle_volume_from_time_period(i64::MIN, 1, i64::MIN).unwrap();
    assert_eq!(r, (1i128 << 126) / 1440);
}

fn trade(timestamp: i64, price: i64, size: i64) -> Trade {
    Trade { timestamp, price: fixed(price), size: fixed(size) }
}

#[test]
fn aggregate_all_trades_by_ticks() {
    let prices = [10, 11, 9, 12, 13, 8];
    let trades: Vec<Trade> =
        prices.iter().enumerate().map(|(i, p)| trade(i as i64, *p, 1)).collect();
    let mut aggregator = GenericAggregator::<Candle>::new(TriggerRule::Tick, 3, By::Quote);
    let candles = aggregate_all_trades(&trades, &mut aggregator);
    assert_eq!(candles.len(), 2);
    assert_eq!(
        candles[0],
        Candle {
            open: fixed(10),
            high: fixed(11),
            low: fixed(9),
            close: fixed(9),
            volume: 3 * SCALE as i128,
            count: 3,
            start: 0,
            end: 2,
        }
    );
    assert_eq!(
        candles[1],
        Candle {
            open: fixed(12),
            high: fixed(13),
            low: fixed(8),
            close: fixed(8),
            volume: 3 * SCALE as i128,
            count: 3,
            start: 3,
            end: 5,
        }
    );
    assert!(aggregator.is_empty());
}

#[test]
fn aggregate_all_trades_of_nothing() {
    let trades: Vec<Trade> = Vec::new();
    let mut aggregator = GenericAggregator::<Candle>::new(TriggerRule::Tick, 3, By::Quote);
    let candles = aggregate_all_trades(&trades, &mut aggregator);
    assert!(candles.is_empty());
    assert!(aggregator.is_empty());
    let mut by_time = GenericAggregator::<Candle>::new(TriggerRule::Time, 1000, By::Base);
    assert!(aggregate_all_trades(&trades, &mut by_time).is_empty());
    assert!(by_time.is_empty());
}

#[test]
fn aggregate_all_trades_passes_over_refused_trades() {
    let trades = vec![
        trade(0, 2, 10),
        Trade { timestamp: 1, price: 0, size: fixed(5) },
        trade(2, 4, 8),
        trade(3, 1, 1),
    ];
    let mut aggregator = GenericAggregator::<Candle>::new(TriggerRule::Tick, 3, By::Base);
    let candles = aggregate_all_trades(&trades, &mut aggregator);
    assert_eq!(candles.len(), 1);
    assert_eq!(candles[0].count, 3);
    assert_eq!(candles[0].volume, 8 * SCALE as i128);
    assert_eq!(candles[0].low, fixed(1));
    assert!(aggregator.is_empty());
}

#[test]
fn aggregate_all_trades_keeps_the_running_period() {
    let trades = vec![trade(0, 10, 1), trade(1, 11, 1), trade(2, 12, 1), trade(3, 13, 1)];
    let mut aggregator = GenericAggregator::<Candle>::new(TriggerRule::Tick, 3, By::Quote);
    let candles = aggregate_all_trades(&trades, &mut aggregator);
    assert_eq!(candles.len(), 1);
    assert!(!aggregator.is_empty());
    let more = vec![trade(4, 14, 1), trade(5, 15, 1)];
    let candles = aggregate_all_trades(&more, &mut aggregator);
    assert_eq!(candles.len(), 1);
    assert_eq!(candles[0].open, fixed(13));
    assert_eq!(candles[0].close, fixed(15));
    assert_eq!(candles[0].count, 3);
}

fn record(fields: &[&str]) -> Vec<Vec<u8>> {
    fields.iter().map(|f| f.as_bytes().to_vec()).collect()
}

#[test]
fn load_trades_from_csv_reads_records() {
    let data = b"timestamp,price,size\n1000,2.5,-3\n2000,0.00000001,10.125\n";
    let trades = load_trades_from_csv(data).unwrap();
    assert_eq!(
        trades,
        vec![
            Trade { timestamp: 1000, price: 250_000_000, size: -300_000_000 },
            Trade { timestamp: 2000, price: 1, size: 1_012_500_000 },
        ]
    );
}

#[test]
fn load_trades_from_csv_skips_the_header_only() {
    assert_eq!(load_trades_from_csv(b"timestamp,price,size\n"), Ok(vec![]));
    assert_eq!(load_trades_from_csv(b""), Ok(vec![]));
    // The first line is always taken for the header.
    assert_eq!(load_trades_from_csv(b"1,2,3\n"), Ok(vec![]));
}

#[test]
fn load_trades_from_csv_ignores_further_fields() {
    let data = b"timestamp,price,size,side\n5,1,2,buy\n";
    assert_eq!(
        load_trades_from_csv(data),
        Ok(vec![Trade { timestamp: 5, price: fixed(1), size: fixed(2) }])
    );
}

#[test]
fn load_trades_from_csv_fails_on_a_malformed_row() {
    let bad_price = b"timestamp,price,size\n1,2,3\n2,abc,3\n";
    assert_eq!(load_trades_from_csv(bad_price), Err(AggregationError::MalformedInputRow));
    let bad_timestamp = b"timestamp,price,size\n1.5,2,3\n";
    assert_eq!(load_trades_from_csv(bad_timestamp), Err(AggregationError::MalformedInputRow));
    let too_short = b"timestamp,price\n1,2\n";
    assert_eq!(load_trades_from_csv(too_short), Err(AggregationError::MalformedInputRow));
    let uneven = b"timestamp,price,size\n1,2,3\n1,2,3,4\n";
    assert_eq!(load_trades_from_csv(uneven), Err(AggregationError::MalformedInputRow));
    let not_text = b"timestamp,price,size\n1,2,3,\xff\n";
    assert_eq!(load_trades_from_csv(not_text), Err(AggregationError::MalformedInputRow));
}

#[test]
fn load_trades_from_csv_reads_quoted_fields() {
    let data = b"timestamp,price,size\n\"7\",\"1.5\",\"2\"\n";
    assert_eq!(
        load_trades_from_csv(data),
        Ok(vec![Trade { timestamp: 7, price: 150_000_000, size: fixed(2) }])
    );
}

#[test]
fn trades_from_records_in_order() {
    let rows = vec![record(&["1", "10", "1"]), record(&["2", "11", "-1"])];
    assert_eq!(trades_from_records(&rows), Ok(vec![trade(1, 10, 1), trade(2, 11, -1)]));
    assert_eq!(trades_from_records(&[]), Ok(vec![]));
}

#[test]
fn trades_from_records_fails_as_a_whole() {
    let rows = vec![record(&["1", "10", "1"]), record(&["2", "", "-1"])];
    assert_eq!(trades_from_records(&rows), Err(AggregationError::MalformedInputRow));
    let rows = vec![record(&["1", "10"])];
    assert_eq!(trades_from_records(&rows), Err(AggregationError::MalformedInputRow));
}

#[test]
fn trade_from_record_reads_three_fields() {
    assert_eq!(trade_from_record(&record(&["-5", "+1.25", ".5"])), Ok(Trade {
        timestamp: -5,
        price: 125_000_000,
        size: 50_000_000,
    }));
    assert_eq!(trade_from_record(&record(&["5", "1", "2", "x"])), Ok(trade(5, 1, 2)));
    assert_eq!(trade_from_record(&record(&["5", "1e3", "-2.5E-1"])), Ok(Trade {
        timestamp: 5,
        price: 1000 * SCALE,
        size: -25_000_000,
    }));
    let malformed = Err(AggregationError::MalformedInputRow);
    assert_eq!(trade_from_record(&record(&["5", "1"])), malformed);
    assert_eq!(trade_from_record(&record(&[" 5", "1", "2"])), malformed);
    assert_eq!(trade_from_record(&record(&["5e0", "1", "2"])), malformed);
    assert_eq!(trade_from_record(&record(&["5", "1", "."])), malformed);
    assert_eq!(trade_from_record(&record(&["5", "inf", "1"])), malformed);
    assert_eq!(trade_from_record(&record(&["5", "1", "NaN"])), malformed);
    assert_eq!(trade_from_record(&record(&["9223372036854775808", "1", "1"])), malformed);
}

#[test]
fn trade_from_record_out_of_range() {
    let overflow = Err(AggregationError::Overflow);
    assert_eq!(trade_from_record(&record(&["5", "1e11", "1"])), overflow);
    assert_eq!(trade_from_record(&record(&["5", "1", "92233720369"])), overflow);
    // the first failing field decides
    assert_eq!(
        trade_from_record(&record(&["5", "x", "1e11"])),
        Err(AggregationError::MalformedInputRow)
    );
    assert_eq!(trade_from_record(&record(&["5", "1e11", "x"])), overflow);
    assert_eq!(trade_from_record(&record(&["x", "1e11", "1"])), Err(AggregationError::MalformedInputRow));
}

#[test]
fn load_trades_from_csv_reads_scientific_notation() {
    let data = b"timestamp,price,size\n1,1e5,1\n2,2.5E-3,-1e-8\n";
    assert_eq!(
        load_trades_from_csv(data),
        Ok(vec![
            Trade { timestamp: 1, price: 100_000 * SCALE, size: SCALE },
            Trade { timestamp: 2, price: 250_000, size: -1 },
        ])
    );
}

#[test]
fn load_trades_from_csv_reports_the_first_failing_record() {
    let data = b"timestamp,price,size\n1,1,1\n2,1e11,1\n3,x,1\n";
    assert_eq!(load_trades_from_csv(data), Err(AggregationError::Overflow));
    let data = b"timestamp,price,size\n1,1,1\n2,x,1\n3,1e11,1\n";
    assert_eq!(load_trades_from_csv(data), Err(AggregationError::MalformedInputRow));
    let data = b"timestamp,price,size\n1,inf,1\n";
    assert_eq!(load_trades_from_csv(data), Err(AggregationError::MalformedInputRow));
}

#[test]
fn aggregate_trades_until_refused_stops_at_the_refusal() {
    let trades = vec![
        trade(0, 2, 10),
        trade(1, 4, 8),
        trade(2, 1, 1),
        trade(3, 5, 5),
        Trade { timestamp: 4, price: 0, size: fixed(5) },
        trade(5, 4, 8),
    ];
    let mut aggregator = GenericAggregator::<Candle>::new(TriggerRule::Tick, 3, By::Base);
    let (candles, refused) = aggregate_trades_until_refused(&trades, &mut aggregator);
    assert_eq!(refused, Some((4, AggregationError::InvalidBasisArithmetic)));
    assert_eq!(candles.len(), 1);
    assert_eq!(candles[0].count, 3);
    assert!(!aggregator.is_empty());

    // the caller passes over the refused trade and goes on
    let (more, refused) = aggregate_trades_until_refused(&trades[5..], &mut aggregator);
    assert_eq!(refused, None);
    assert!(more.is_empty());
    let rest = aggregator.flush().unwrap();
    assert_eq!((rest.count, rest.start, rest.end), (2, 3, 5));
}

#[test]
fn aggregate_trades_until_refused_without_a_refusal() {
    let trades = vec![trade(0, 10, 1), trade(1, 11, 1), trade(2, 9, 1), trade(3, 12, 1)];
    let mut stopping = GenericAggregator::<Candle>::new(TriggerRule::Tick, 3, By::Quote);
    let (candles, refused) = aggregate_trades_until_refused(&trades, &mut stopping);
    assert_eq!(refused, None);
    let mut passing = GenericAggregator::<Candle>::new(TriggerRule::Tick, 3, By::Quote);
    assert_eq!(candles, aggregate_all_trades(&trades, &mut passing));
    assert_eq!(stopping.flush(), passing.flush());

    let none: Vec<Trade> = Vec::new();
    let (candles, refused) = aggregate_trades_until_refused(&none, &mut stopping);
    assert!(candles.is_empty());
    assert_eq!(refused, None);
    assert!(stopping.is_empty());
}

#[test]
fn aggregate_trades_until_refused_at_the_first_trade() {
    let trades = vec![Trade { timestamp: 0, price: 0, size: 1 }, trade(1, 1, 1)];
    let mut aggregator = GenericAggregator::<Candle>::new(TriggerRule::Tick, 2, By::Base);
    let (candles, refused) = aggregate_trades_until_refused(&trades, &mut aggregator);
    assert!(candles.is_empty());
    assert_eq!(refused, Some((0, AggregationError::InvalidBasisArithmetic)));
    assert!(aggregator.is_empty());
}
