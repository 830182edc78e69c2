use rust_decimal::prelude::ToPrimitive;
use trading_bot::decimal::Decimal;
use trading_bot::indicators::{
    atr, closes, ema, ema_last, macd, rsi, rsi_divergence, stoch_rsi, vwap, IndicatorError,
};
use trading_bot::types::{Candle, Direction, Price, Quantity, Symbol};

fn d(v: f64) -> Decimal {
    let x = rust_decimal::Decimal::try_from(v).unwrap();
    Decimal::from_parts(x.mantissa(), x.scale()).unwrap()
}

fn f(x: Decimal) -> f64 {
    rust_decimal::Decimal::from_i128_with_scale(x.mantissa(), x.scale()).to_f64().unwrap()
}

fn rising(n: usize) -> Vec<Decimal> {
    (0..n).map(|i| d(100.0 + i as f64)).collect()
}
fn falling(n: usize) -> Vec<Decimal> {
    (0..n).map(|i| d(200.0 - i as f64)).collect()
}
fn flat(n: usize) -> Vec<Decimal> {
    vec![d(100.0); n]
}

fn make_candle(high: f64, low: f64, close: f64, volume: f64) -> Candle {
    Candle {
        symbol: Symbol::new("TEST"),
        open_time: 0,
        open: Price::new(d(close)),
        high: Price::new(d(high)),
        low: Price::new(d(low)),
        close: Price::new(d(close)),
        volume: Quantity::new(d(volume)),
        quote_volume: Decimal::one(),
        taker_buy_volume: Decimal::one(),
        is_closed: true,
    }
}

fn make_candles(n: usize, range: f64) -> Vec<Candle> {
    (0..n)
        .map(|i| {
            let mid = 100.0 + i as f64;
            make_candle(mid + range, mid - range, mid, 1.0)
        })
        .collect()
}

#[test]
fn rsi_needs_enough_data() {
    assert_eq!(
        rsi(&rising(5), 14),
        Err(IndicatorError::NotEnoughData { need: 15, got: 5 })
    );
}

#[test]
fn rsi_all_gains_is_100() {
    let v = rising(30);
    assert_eq!(rsi(&v, 14).unwrap(), d(100.0));
}

#[test]
fn rsi_all_losses_is_0() {
    let v = falling(30);
    let r = f(rsi(&v, 14).unwrap());
    assert!(r < 1.0, "RSI={r} expected near 0");
}

#[test]
fn rsi_flat_is_undefined_but_no_panic() {
    // All changes are 0 → avg_loss = 0 → RSI = 100
    let v = flat(30);
    let r = rsi(&v, 14).unwrap();
    assert_eq!(r, d(100.0));
}

#[test]
fn rsi_typical_range() {
    // Alternating up/down: RSI should be near 50
    let v: Vec<Decimal> = (0..40)
        .map(|i| if i % 2 == 0 { d(100.0) } else { d(101.0) })
        .collect();
    let r = f(rsi(&v, 14).unwrap());
    assert!(r > 40.0 && r < 60.0, "RSI={r}");
}

#[test]
fn ema_needs_enough_data() {
    assert!(ema(&rising(5), 10).is_err());
}

#[test]
fn ema_length_is_correct() {
    let out = ema(&rising(30), 10).unwrap();
    // 30 data points, period 10 → 30-10+1 = 21 output values
    assert_eq!(out.len(), 21);
}

#[test]
fn ema_on_flat_series_equals_value() {
    let out = ema(&flat(30), 10).unwrap();
    for v in &out {
        let v = f(*v);
        assert!((v - 100.0).abs() < 1e-9, "EMA={v}");
    }
}

#[test]
fn ema_rises_on_rising_series() {
    let out = ema(&rising(30), 5).unwrap();
    // EMA should be monotonically increasing
    for w in out.windows(2) {
        assert!(w[0].at_most(w[1]), "{} < {}", f(w[1]), f(w[0]));
    }
}

#[test]
fn macd_needs_enough_data() {
    assert!(macd(&rising(20)).is_err());
}

#[test]
fn macd_rising_series_is_positive() {
    let r = macd(&rising(60)).unwrap();
    assert!(f(r.macd) > 0.0, "MACD={}", f(r.macd));
}

#[test]
fn macd_falling_series_is_negative() {
    let r = macd(&falling(60)).unwrap();
    assert!(f(r.macd) < 0.0, "MACD={}", f(r.macd));
}

#[test]
fn macd_histogram_equals_macd_minus_signal() {
    let r = macd(&rising(60)).unwrap();
    assert!((f(r.histogram) - (f(r.macd) - f(r.signal))).abs() < 1e-10);
}

#[test]
fn atr_constant_range() {
    let candles = make_candles(20, 5.0);
    let a = f(atr(&candles, 14).unwrap());
    // With constant high-low range of 10 (mid±5), ATR ≈ 10
    assert!(a > 9.0 && a < 11.0, "ATR={a}");
}

#[test]
fn atr_needs_enough_data() {
    let candles = make_candles(5, 5.0);
    assert!(atr(&candles, 14).is_err());
}

#[test]
fn ema_last_matches_last_of_full() {
    let data = rising(30);
    let full = ema(&data, 10).unwrap();
    let last = ema_last(&data, 10).unwrap();
    assert!((f(last) - f(*full.last().unwrap())).abs() < 1e-12);
}

#[test]
fn stoch_rsi_range() {
    let v = (0..60)
        .map(|i| d(100.0 + (i as f64 * 0.3).sin() * 10.0))
        .collect::<Vec<_>>();
    let s = stoch_rsi(&v, 14, 14).unwrap();
    let k = f(s.k);
    assert!(k >= 0.0 && k <= 100.0, "k={}", k);
}

#[test]
fn rsi_of_a_short_row_by_hand() {
    // Changes +2 −1 +1: mean gain of two 1, mean loss 0.5, then
    // (1·1 + 1)/2 = 1 and (0.5·1 + 0)/2 = 0.25, so 100 − 100/5 = 80.
    let v = vec![d(10.0), d(12.0), d(11.0), d(12.0)];
    assert_eq!(rsi(&v, 2), Ok(d(80.0)));
    assert_eq!(rsi(&falling(30), 14), Ok(d(0.0)));
    assert_eq!(rsi(&v, 0), Err(IndicatorError::DivisionByZero("rsi")));
}

#[test]
fn ema_by_hand() {
    // Weight 2/(3+1) = 0.5: mean of 1 2 3 is 2, then 2+0.5·(5−2)=3.5.
    let v = vec![d(1.0), d(2.0), d(3.0), d(5.0)];
    assert_eq!(ema(&v, 3), Ok(vec![d(2.0), d(3.5)]));
    assert_eq!(ema_last(&v, 3), Ok(d(3.5)));
    assert_eq!(ema(&v, 0), Err(IndicatorError::DivisionByZero("ema")));
    assert_eq!(ema(&v, 9), Err(IndicatorError::NotEnoughData { need: 9, got: 4 }));
}

#[test]
fn macd_asks_for_its_three_averages_in_turn() {
    let err = |n: usize| macd(&rising(n)).err().unwrap();
    assert_eq!(err(11), IndicatorError::NotEnoughData { need: 12, got: 11 });
    assert_eq!(err(25), IndicatorError::NotEnoughData { need: 26, got: 25 });
    assert_eq!(err(33), IndicatorError::NotEnoughData { need: 9, got: 8 });
    assert!(macd(&rising(34)).is_ok());
}

#[test]
fn atr_takes_the_widest_of_three_ranges() {
    let candles = vec![
        make_candle(10.0, 9.0, 10.0, 1.0),
        make_candle(15.0, 14.0, 14.0, 1.0), // 15 − 10 = 5
        make_candle(12.0, 8.0, 9.0, 1.0),   // |8 − 14| = 6
    ];
    assert_eq!(atr(&candles, 2), Ok(d(5.5)));
    assert_eq!(atr(&candles, 1), Ok(d(6.0)));
    assert_eq!(atr(&candles, 0), Err(IndicatorError::DivisionByZero("atr")));
}

#[test]
fn vwap_weighs_by_volume() {
    let candles = vec![make_candle(12.0, 9.0, 9.0, 1.0), make_candle(24.0, 18.0, 18.0, 3.0)];
    // (10·1 + 20·3) / 4
    assert_eq!(vwap(&candles), Ok(d(17.5)));
    assert_eq!(
        vwap(&[make_candle(1.0, 1.0, 1.0, 0.0)]),
        Err(IndicatorError::DivisionByZero("vwap"))
    );
    assert_eq!(vwap(&[]), Err(IndicatorError::DivisionByZero("vwap")));
}

#[test]
fn stoch_rsi_of_a_flat_row_is_in_the_middle() {
    let s = stoch_rsi(&flat(40), 14, 14).unwrap();
    assert_eq!(s.k, d(50.0));
    assert_eq!(s.d, s.k);
    assert_eq!(
        stoch_rsi(&flat(28), 14, 14).err().unwrap(),
        IndicatorError::NotEnoughData { need: 29, got: 28 }
    );
}

#[test]
fn divergence_between_two_windows() {
    let at = |prices: &[f64]| -> Vec<Candle> {
        prices.iter().map(|p| make_candle(*p, *p, *p, 1.0)).collect()
    };
    // The price falls from 90 to 83 while the RSI rises from 0 to 23.
    let long = at(&[100.0, 99.0, 95.0, 90.0, 80.0, 83.0]);
    assert_eq!(rsi_divergence(&long, 2), Ok(Some(Direction::Long)));
    let short = at(&[100.0, 101.0, 105.0, 110.0, 120.0, 117.0]);
    assert_eq!(rsi_divergence(&short, 2), Ok(Some(Direction::Short)));
    assert_eq!(rsi_divergence(&short[..5], 2), Ok(None));
    assert_eq!(rsi_divergence(&short, 0), Ok(None));
}

fn smallest(m: i128) -> Decimal {
    Decimal::from_parts(m, 28).unwrap()
}

#[test]
fn rsi_of_gains_far_above_the_losses() {
    let v = vec![smallest(2), d(0.0), d(1e12)];
    assert_eq!(rsi(&v, 2), Ok(d(100.0)));
    let v = vec![d(1e12), smallest(2), smallest(4)];
    assert_eq!(rsi(&v, 2), Ok(d(0.0)));
    // Equal averages, gains of four to one, and losses of four to one.
    assert_eq!(rsi(&[d(1.0), d(2.0), d(1.0)], 2), Ok(d(50.0)));
    assert_eq!(rsi(&[d(1.0), d(5.0), d(4.0)], 2), Ok(d(80.0)));
    assert_eq!(rsi(&[d(5.0), d(1.0), d(2.0)], 2), Ok(d(20.0)));
}

#[test]
fn extreme_ratios_reach_the_other_oscillators() {
    let v = vec![smallest(2), d(0.0), d(1e12), d(1.0), d(1.0)];
    assert!(stoch_rsi(&v, 2, 2).is_ok());
    let candles: Vec<Candle> = [d(1.0), d(1.0), d(1.0), smallest(2), d(0.0), d(1e12)]
        .into_iter()
        .map(|p| {
            let mut c = make_candle(1.0, 1.0, 1.0, 1.0);
            c.close = Price::new(p);
            c
        })
        .collect();
    assert_eq!(rsi_divergence(&candles, 2), Ok(None));
}

#[test]
fn divergence_never_fails() {
    let most = Decimal::from_parts(79228162514264337593543950335, 0).unwrap();
    let candles: Vec<Candle> = [most, most.negated(), most, most.negated(), most, most]
        .into_iter()
        .map(|p| {
            let mut c = make_candle(1.0, 1.0, 1.0, 1.0);
            c.close = Price::new(p);
            c
        })
        .collect();
    assert_eq!(rsi_divergence(&candles, 2), Ok(None));
    assert_eq!(
        rsi(&closes(&candles), 2),
        Err(IndicatorError::OutOfRange)
    );
}

#[test]
fn percent_d_is_the_mean_of_the_last_three_percent_k() {
    // The RSI of single moves is 100, 0, 100, 0, 100, so %K is 0, 100, 0, 100.
    let v: Vec<Decimal> = [1.0, 2.0, 1.0, 2.0, 1.0, 2.0].into_iter().map(d).collect();
    let s = stoch_rsi(&v, 1, 2).unwrap();
    assert_eq!(s.k, d(100.0));
    assert!((f(s.d) - 200.0 / 3.0).abs() < 1e-12, "d={}", f(s.d));
    let s = stoch_rsi(&v[..5], 1, 2).unwrap();
    assert_eq!(s.k, d(0.0));
    assert!((f(s.d) - 100.0 / 3.0).abs() < 1e-12, "d={}", f(s.d));
    // Of a row as short as it may be there are two %K: 0 and 100.
    let s = stoch_rsi(&v[..4], 1, 2).unwrap();
    assert_eq!(s.k, d(100.0));
    assert_eq!(s.d, d(50.0));
}

#[test]
fn the_largest_ordinary_prices_are_in_range() {
    let v: Vec<Decimal> = (0..60).map(|i| if i % 2 == 0 { d(0.0) } else { d(1e12) }).collect();
    assert!(rsi(&v, 14).is_ok());
    assert!(stoch_rsi(&v, 14, 14).is_ok());
    assert!(ema(&v, 50).is_ok());
    let m = macd(&v).unwrap();
    let line = f(ema_last(&v, 12).unwrap()) - f(ema_last(&v, 26).unwrap());
    assert!((f(m.macd) - line).abs() < 1.0);
    assert!((f(m.histogram) - (f(m.macd) - f(m.signal))).abs() < 1e-3);
    let candles: Vec<Candle> = (0..60).map(|_| make_candle(1e12, 0.0, 1e12, 1e12)).collect();
    assert_eq!(atr(&candles, 14), Ok(d(1e12)));
    assert!(vwap(&candles).is_ok());
}

#[test]
fn closes_are_taken_in_order() {
    assert_eq!(closes(&make_candles(3, 5.0)), vec![d(100.0), d(101.0), d(102.0)]);
}

#[test]
fn numbers_out_of_range_are_reported() {
    let most = Decimal::from_parts(79228162514264337593543950335, 0).unwrap();
    let v = vec![most.negated(), most, most];
    assert_eq!(rsi(&v, 2), Err(IndicatorError::OutOfRange));
    assert_eq!(ema(&[most, most, most], 3), Err(IndicatorError::OutOfRange));
}

#[test]
fn indicator_errors_are_written_out() {
    assert_eq!(
        IndicatorError::NotEnoughData { need: 15, got: 5 }.to_string(),
        "Not enough data: need 15, got 5"
    );
    assert_eq!(IndicatorError::DivisionByZero("vwap").to_string(), "Division by zero in vwap");
    assert_eq!(IndicatorError::OutOfRange.to_string(), "Number out of range");
}

#[test]
fn vwap_lies_between_the_lows_and_the_highs() {
    let candles = vec![
        make_candle(12.5, 9.25, 10.0, 0.00000001),
        make_candle(11.0, 9.5, 9.75, 123456.789),
        make_candle(12.0, 10.0, 11.5, 7.0),
    ];
    let x = f(vwap(&candles).unwrap());
    assert!(x > 9.25 && x < 12.5, "vwap={x}");
    assert_eq!(vwap(&[make_candle(7.0, 7.0, 7.0, 3.0)]), Ok(d(7.0)));
}
