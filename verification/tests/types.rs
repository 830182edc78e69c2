use trading_bot::decimal::Decimal;
use trading_bot::types::{
    Candle, Direction, Interval, Metrics, Outcome, Price, Quantity, SetupKind, Signal, Symbol,
};

fn d(v: f64) -> Decimal {
    let x = rust_decimal::Decimal::try_from(v).unwrap();
    Decimal::from_parts(x.mantissa(), x.scale()).unwrap()
}

fn candle(open: f64, high: f64, low: f64, close: f64) -> Candle {
    Candle {
        symbol: Symbol::new("BTCUSDT"),
        open_time: 0,
        open: Price::new(d(open)),
        high: Price::new(d(high)),
        low: Price::new(d(low)),
        close: Price::new(d(close)),
        volume: Quantity::new(Decimal::one()),
        quote_volume: Decimal::one(),
        taker_buy_volume: Decimal::one(),
        is_closed: true,
    }
}

fn signal(entry: f64, tp: f64, sl: f64) -> Signal {
    Signal {
        id: 1,
        symbol: Symbol::new("BTCUSDT"),
        direction: Direction::Long,
        kind: SetupKind::BreakOfStructure,
        entry: Price::new(d(entry)),
        take_profit: Price::new(d(tp)),
        stop_loss: Price::new(d(sl)),
        risk_reward: d(2.0),
        confidence: d(0.8),
        size_usd: d(1.0),
        reasons: vec![],
        created_at: 0,
    }
}

#[test]
fn symbol_normalises_to_uppercase() {
    let s = Symbol::new("btcusdt");
    assert_eq!(s.as_str(), "BTCUSDT");
}

#[test]
fn symbols_come_from_texts() {
    assert_eq!(Symbol::from("btcUsdt").as_str(), "BTCUSDT");
}

#[test]
fn symbol_display() {
    assert_eq!(Symbol::new("ethusdt").to_string(), "ETHUSDT");
}

#[test]
fn candle_bullish_bearish() {
    let make = |open: f64, close: f64| {
        candle(open, close.max(open) + 10.0, close.min(open) - 10.0, close)
    };
    assert!(make(100.0, 110.0).is_bullish());
    assert!(make(110.0, 100.0).is_bearish());
}

#[test]
fn metrics_grade() {
    let mut m = Metrics::default();
    m.win_rate = d(0.65);
    assert_eq!(m.grade(), "A+");
    m.win_rate = d(0.56);
    assert_eq!(m.grade(), "A");
    m.win_rate = d(0.52);
    assert_eq!(m.grade(), "B");
    m.win_rate = d(0.48);
    assert_eq!(m.grade(), "D");
}

#[test]
fn metrics_grade_at_its_edges() {
    let mut m = Metrics::default();
    assert_eq!(m.grade(), "D");
    m.win_rate = d(0.62);
    assert_eq!(m.grade(), "A+");
    m.win_rate = d(0.6199);
    assert_eq!(m.grade(), "A");
    m.win_rate = d(0.50);
    assert_eq!(m.grade(), "C");
    m.win_rate = d(0.4999);
    assert_eq!(m.grade(), "D");
}

#[test]
fn symbols_compare_by_their_text() {
    assert!(Symbol::new("btcusdt").same(&Symbol::new("BTCUSDT")));
    assert!(!Symbol::new("btcusdt").same(&Symbol::new("ETHUSDT")));
    assert_eq!(Symbol::new("BtcUsdt").to_lowercase(), "btcusdt");
    // One lower-case letter can have two upper-case ones.
    assert_eq!(Symbol::new("straße").as_str(), "STRASSE");
    for text in ["ﬁlm", "ŉa", "éa", "ǆz", "İi", "ªb"] {
        assert!(!Symbol::new(text).as_str().chars().any(|c| c.is_ascii_lowercase()), "{text}");
    }
}

#[test]
fn a_flat_candle_is_neither_bullish_nor_bearish() {
    let c = candle(100.0, 101.0, 99.0, 100.0);
    assert!(!c.is_bullish());
    assert!(!c.is_bearish());
}

#[test]
fn body_is_measured_against_the_range() {
    assert_eq!(candle(100.0, 110.0, 90.0, 105.0).body_pct(), Some(d(25.0)));
    assert_eq!(candle(105.0, 110.0, 90.0, 100.0).body_pct(), Some(d(25.0)));
    assert_eq!(candle(100.0, 100.0, 100.0, 100.0).body_pct(), Some(d(0.0)));
    let mut c = candle(1.0, 1.0, 1.0, 1.0);
    let most = Decimal::from_parts(79228162514264337593543950335, 0).unwrap();
    c.high = Price::new(most);
    c.low = Price::new(most.negated());
    assert_eq!(c.body_pct(), None);
}

#[test]
fn risk_and_reward_in_percent_of_the_entry() {
    let s = signal(200.0, 230.0, 190.0);
    assert_eq!(s.reward_pct(), Some(d(15.0)));
    assert_eq!(s.risk_pct(), Some(d(5.0)));
    let z = signal(0.0, 230.0, 190.0);
    assert_eq!(z.reward_pct(), Some(d(0.0)));
    assert_eq!(z.risk_pct(), Some(d(0.0)));
}

#[test]
fn prices_are_written_with_six_decimals() {
    assert_eq!(Price::new(d(1.5)).to_string(), "1.500000");
    assert_eq!(Price::new(Decimal::new(12345678, 7)).to_string(), "1.234567");
    assert_eq!(Price::new(Decimal::new(-5, 0)).to_string(), "-5.000000");
    assert_eq!(Price::new(d(2.0)).inner(), d(2.0));
    assert_eq!(Quantity::new(d(2.0)).inner(), d(2.0));
}

#[test]
fn names_of_the_enums() {
    assert_eq!(Interval::OneMinute.to_string(), "1m");
    assert_eq!(Interval::FiveMinutes.to_string(), "5m");
    assert_eq!(Interval::FifteenMinutes.to_string(), "15m");
    assert_eq!(Interval::OneHour.to_string(), "1h");
    assert_eq!(Interval::FourHours.to_string(), "4h");
    assert_eq!(Interval::OneDay.to_string(), "1d");
    assert_eq!(Direction::Long.to_string(), "LONG");
    assert_eq!(Direction::Short.to_string(), "SHORT");
    assert_eq!(Direction::Long.label(), "Long");
    assert_eq!(Direction::Short.label(), "Short");
    assert_eq!(SetupKind::OrderBlockBounce.to_string(), "Order Block Bounce");
    assert_eq!(SetupKind::FairValueGapFill.to_string(), "FVG Fill");
    assert_eq!(SetupKind::BreakOfStructure.to_string(), "Break of Structure");
    assert_eq!(SetupKind::ChangeOfCharacter.to_string(), "Change of Character");
    assert_eq!(SetupKind::LiquiditySweepReversal.to_string(), "Liquidity Sweep");
    assert_eq!(SetupKind::RsiDivergence.to_string(), "RSI Divergence");
    assert_eq!(SetupKind::VolumeBreakout.to_string(), "Volume Breakout");
    assert_eq!(Outcome::Open.to_string(), "OPEN");
    assert_eq!(Outcome::Win.to_string(), "WIN");
    assert_eq!(Outcome::Loss.to_string(), "LOSS");
}
