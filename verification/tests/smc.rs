use trading_bot::decimal::Decimal;
use trading_bot::smc::{
    analyse, detect_bos, detect_choch, detect_liq_sweep, find_fvgs, find_order_blocks,
    FairValueGap, OrderBlock, SmcContext,
};
use trading_bot::types::{Candle, Direction, Price, Quantity, Symbol};

fn d(v: f64) -> Decimal {
    let x = rust_decimal::Decimal::try_from(v).unwrap();
    Decimal::from_parts(x.mantissa(), x.scale()).unwrap()
}

fn p(v: f64) -> Price {
    Price::new(d(v))
}

fn candle(open: f64, high: f64, low: f64, close: f64) -> Candle {
    Candle {
        symbol: Symbol::new("TEST"),
        open_time: 0,
        open: p(open),
        high: p(high),
        low: p(low),
        close: p(close),
        volume: Quantity::new(Decimal::one()),
        quote_volume: Decimal::one(),
        taker_buy_volume: Decimal::one(),
        is_closed: true,
    }
}

#[test]
fn bullish_fvg_detected() {
    // c0.high=100, c2.low=105 → gap [100,105]
    let candles = vec![
        candle(95.0, 100.0, 90.0, 98.0),
        candle(101.0, 103.0, 99.0, 102.0),
        candle(104.0, 110.0, 105.0, 108.0),
    ];
    let fvgs = find_fvgs(&candles);
    assert_eq!(fvgs.len(), 1);
    assert_eq!(fvgs[0].dir, Direction::Long);
    assert_eq!(fvgs[0].low.0, d(100.0));
    assert_eq!(fvgs[0].high.0, d(105.0));
}

#[test]
fn bearish_fvg_detected() {
    let candles = vec![
        candle(110.0, 115.0, 105.0, 106.0),
        candle(104.0, 105.0, 100.0, 101.0),
        candle(99.0, 100.0, 90.0, 92.0),
    ];
    let fvgs = find_fvgs(&candles);
    assert_eq!(fvgs.len(), 1);
    assert_eq!(fvgs[0].dir, Direction::Short);
}

#[test]
fn fvg_no_gap_returns_empty() {
    // Overlapping wicks → no FVG
    let candles = vec![
        candle(95.0, 102.0, 90.0, 100.0),
        candle(99.0, 105.0, 97.0, 103.0),
        candle(100.0, 108.0, 98.0, 106.0),
    ];
    assert!(find_fvgs(&candles).is_empty());
}

#[test]
fn order_block_contains() {
    let ob = OrderBlock {
        high: p(105.0),
        low: p(100.0),
        dir: Direction::Long,
        strength: d(70.0),
    };
    assert!(ob.contains(p(102.0), d(0.0)).unwrap());
    assert!(!ob.contains(p(110.0), d(0.0)).unwrap());
    // With tolerance
    assert!(ob.contains(p(107.0), d(2.0)).unwrap());
}

#[test]
fn bos_returns_none_on_short_input() {
    let candles: Vec<Candle> = (0..10)
        .map(|i| candle(i as f64, i as f64 + 1.0, i as f64 - 1.0, i as f64))
        .collect();
    assert!(detect_bos(&candles).is_none());
}

#[test]
fn liq_sweep_bullish() {
    // Build 15 flat candles then a wick-below-then-close-above candle
    let mut candles: Vec<Candle> = (0..14).map(|_| candle(100.0, 102.0, 98.0, 100.0)).collect();
    // Last candle: wick to 95 (below key_low=98), close at 101
    candles.push(candle(100.0, 102.0, 95.0, 101.0));
    assert_eq!(detect_liq_sweep(&candles), Some(Direction::Long));
}

#[test]
fn liq_sweep_bearish_and_none() {
    let mut candles: Vec<Candle> = (0..14).map(|_| candle(100.0, 102.0, 98.0, 100.0)).collect();
    candles.push(candle(100.0, 104.0, 99.0, 101.0));
    assert_eq!(detect_liq_sweep(&candles), Some(Direction::Short));
    candles[14] = candle(100.0, 102.0, 98.0, 101.0);
    assert_eq!(detect_liq_sweep(&candles), None);
    assert_eq!(detect_liq_sweep(&candles[..14]), None);
    // A wick that closes at the level itself is no sweep.
    candles[14] = candle(100.0, 104.0, 99.0, 102.0);
    assert_eq!(detect_liq_sweep(&candles), None);
}

#[test]
fn tolerance_widens_a_block_on_both_sides() {
    let ob = OrderBlock { high: p(105.0), low: p(100.0), dir: Direction::Long, strength: d(70.0) };
    assert_eq!(ob.contains(p(98.0), d(2.0)), Some(true));
    assert_eq!(ob.contains(p(97.99), d(2.0)), Some(false));
    assert_eq!(ob.contains(p(107.1), d(2.0)), Some(true));
    assert_eq!(ob.contains(p(107.11), d(2.0)), Some(false));
    let most = Decimal::from_parts(79228162514264337593543950335, 0).unwrap();
    let far = OrderBlock { high: Price::new(most), ..ob };
    assert_eq!(far.contains(p(100.0), d(2.0)), None);
}

fn rally(closes: [f64; 4]) -> Vec<Candle> {
    let mut v = vec![
        candle(100.0, 101.0, 99.0, 100.5),
        // The bearish candle: body 4 of a range of 8.
        candle(100.0, 101.0, 93.0, 96.0),
    ];
    for c in closes {
        v.push(candle(c, c, c, c));
    }
    v
}

#[test]
fn a_bearish_candle_before_a_rally_is_a_bullish_block() {
    let obs = find_order_blocks(&rally([97.0, 98.0, 99.0, 102.0])).unwrap();
    assert_eq!(obs.len(), 1);
    assert_eq!(obs[0].dir, Direction::Long);
    assert_eq!(obs[0].high.0, d(100.0));
    assert_eq!(obs[0].low.0, d(93.0));
    assert_eq!(obs[0].strength, d(50.0));
}

#[test]
fn a_rally_of_exactly_one_and_a_half_percent_counts() {
    assert_eq!(find_order_blocks(&rally([97.0, 98.0, 99.0, 101.5])).unwrap().len(), 1);
    assert_eq!(find_order_blocks(&rally([97.0, 98.0, 99.0, 101.49])).unwrap().len(), 0);
}

#[test]
fn a_bullish_candle_before_a_sell_off_is_a_bearish_block() {
    let candles = vec![
        candle(100.0, 101.0, 99.0, 100.0),
        candle(100.0, 105.0, 97.0, 102.0),
        candle(99.0, 99.0, 99.0, 99.0),
        candle(98.5, 98.5, 98.5, 98.5),
        candle(99.0, 99.0, 99.0, 99.0),
        candle(99.0, 99.0, 99.0, 99.0),
    ];
    let obs = find_order_blocks(&candles).unwrap();
    assert_eq!(obs.len(), 1);
    assert_eq!(obs[0].dir, Direction::Short);
    assert_eq!(obs[0].high.0, d(105.0));
    assert_eq!(obs[0].low.0, d(100.0));
    assert_eq!(obs[0].strength, d(25.0));
    assert!(find_order_blocks(&candles[..5]).unwrap().is_empty());
}

#[test]
fn an_order_block_out_of_range_is_reported() {
    let most = Decimal::from_parts(79228162514264337593543950335, 0).unwrap();
    let mut candles = rally([97.0, 98.0, 99.0, 102.0]);
    candles[1].high = Price::new(most);
    candles[1].low = Price::new(most.negated());
    assert!(find_order_blocks(&candles).is_none());
    let mut long: Vec<Candle> = (0..40).map(|_| candle(100.0, 102.0, 98.0, 100.0)).collect();
    long[1].high = Price::new(most);
    long[1].low = Price::new(most.negated());
    assert!(analyse(&long, p(100.0)).is_none());
}

#[test]
fn breaks_of_structure_both_ways() {
    let mut candles: Vec<Candle> = (0..20).map(|_| candle(100.0, 102.0, 98.0, 100.0)).collect();
    assert_eq!(detect_bos(&candles), None);
    candles[19] = candle(100.0, 104.0, 99.0, 103.0);
    assert_eq!(detect_bos(&candles), Some(Direction::Long));
    candles[19] = candle(100.0, 101.0, 96.0, 97.0);
    assert_eq!(detect_bos(&candles), Some(Direction::Short));
    candles[19] = candle(100.0, 104.0, 99.0, 102.0);
    assert_eq!(detect_bos(&candles), None);
}

#[test]
fn change_of_character_goes_against_the_old_trend() {
    let down: Vec<Candle> = (0..20)
        .map(|i| {
            let c = 120.0 - i as f64;
            candle(c + 0.5, c + 1.0, c - 1.0, c)
        })
        .collect();
    let mut candles = down.clone();
    candles.extend((0..20).map(|_| candle(102.0, 103.0, 101.0, 102.0)));
    assert_eq!(detect_choch(&candles), None);
    // The old highs reach 121.
    candles[39] = candle(102.0, 123.0, 101.0, 122.0);
    assert_eq!(detect_choch(&candles), Some(Direction::Long));
    // Only the first break is a change of character.
    candles[30] = candle(102.0, 123.0, 101.0, 121.5);
    assert_eq!(detect_choch(&candles), None);
    candles[30] = candle(102.0, 123.0, 101.0, 121.0);
    assert_eq!(detect_choch(&candles), Some(Direction::Long));
    // A fall below the old lows continues the trend.
    candles[39] = candle(102.0, 103.0, 90.0, 91.0);
    assert_eq!(detect_choch(&candles), None);
    assert_eq!(detect_choch(&candles[..39]), None);
    let mut up: Vec<Candle> = down.into_iter().rev().collect();
    up.extend((0..20).map(|_| candle(110.0, 111.0, 109.0, 110.0)));
    up[39] = candle(102.0, 103.0, 90.0, 91.0);
    assert_eq!(detect_choch(&up), Some(Direction::Short));
    up[20] = candle(102.0, 103.0, 90.0, 91.0);
    assert_eq!(detect_choch(&up), None);
}

#[test]
fn gaps_hold_their_edges() {
    let g = FairValueGap { high: p(105.0), low: p(100.0), dir: Direction::Long };
    assert!(g.contains(p(100.0)));
    assert!(g.contains(p(105.0)));
    assert!(!g.contains(p(105.01)));
}

#[test]
fn a_short_row_has_an_empty_context() {
    let candles: Vec<Candle> = (0..39).map(|_| candle(100.0, 102.0, 98.0, 100.0)).collect();
    let ctx = analyse(&candles, p(100.0)).unwrap();
    assert_eq!(ctx.score, d(0.0));
    assert!(ctx.reasons.is_empty());
    assert_eq!(SmcContext::default().bos, None);
}

#[test]
fn a_context_sums_up_what_was_found() {
    let mut candles: Vec<Candle> = (0..40).map(|_| candle(100.0, 102.0, 98.0, 100.0)).collect();
    // A break that is also a gap over the candle before the last.
    candles[39] = candle(103.0, 105.0, 102.5, 104.0);
    let ctx = analyse(&candles, p(102.25)).unwrap();
    assert_eq!(ctx.bos, Some(Direction::Long));
    assert_eq!(ctx.choch, None);
    assert_eq!(ctx.liq_sweep, None);
    assert_eq!(ctx.fvgs.len(), 1);
    assert_eq!(ctx.score, d(0.4));
    assert_eq!(
        ctx.reasons,
        vec!["Long FVG $102.000000–$102.500000", "Long Break of Structure"]
    );
}

#[test]
fn a_score_is_at_most_one() {
    // Thirteen bearish candles, each before a rally back to 102.
    let mut candles = Vec::new();
    for _ in 0..20 {
        candles.push(candle(100.0, 101.0, 98.0, 99.0));
        candles.push(candle(102.0, 103.0, 98.0, 102.0));
    }
    let ctx = analyse(&candles, p(100.0)).unwrap();
    assert!(ctx.order_blocks.len() > 4);
    assert_eq!(ctx.score, d(1.0));
    assert_eq!(ctx.reasons[0], "Long Order Block $98.000000–$100.000000 (strength 33%)");
}
