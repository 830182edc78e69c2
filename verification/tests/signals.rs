use trading_bot::decimal::Decimal;
use trading_bot::ranking::rank;
use trading_bot::signals::{build, evaluate, plan, risk_reward, tp_sl_symmetric, EngineConfig};
use trading_bot::types::{Candle, Direction, Price, Quantity, SetupKind, Symbol};

fn dec(text: &str) -> Decimal {
    Decimal::parse(text).unwrap()
}

fn candle(open: Decimal, high: Decimal, low: Decimal, close: Decimal, volume: &str) -> Candle {
    Candle {
        symbol: Symbol::new("TEST"),
        open_time: 0,
        open: Price::new(open),
        high: Price::new(high),
        low: Price::new(low),
        close: Price::new(close),
        volume: Quantity::new(dec(volume)),
        quote_volume: Decimal::one(),
        taker_buy_volume: Decimal::one(),
        is_closed: true,
    }
}

fn plus(a: Decimal, b: &str) -> Decimal {
    a.checked_add(dec(b)).unwrap()
}

/// A quiet market.
fn quiet(n: usize) -> Vec<Candle> {
    (0..n).map(|_| candle(dec("100"), dec("101"), dec("99"), dec("100"), "1")).collect()
}

/// A block, a rally out of it, and a slow fall back into it.
fn bounce() -> Vec<Candle> {
    let mut v: Vec<Candle> = (0..10)
        .map(|_| candle(dec("100"), dec("100.2"), dec("99.8"), dec("100"), "1"))
        .collect();
    v.push(candle(dec("100"), dec("100.5"), dec("97.6"), dec("98.2"), "1"));
    v.push(candle(dec("98.2"), dec("102.2"), dec("98.1"), dec("102"), "1"));
    for i in 12..55 {
        let c = Decimal::new(10200 - (i - 11) * 10, 2);
        v.push(candle(plus(c, "0.1"), plus(c, "0.35"), plus(c, "-0.25"), c, "1"));
    }
    v
}

/// A steady rise.
fn rise() -> Vec<Candle> {
    (0..55)
        .map(|i| {
            let c = Decimal::new(1000 + i, 1);
            candle(plus(c, "-0.1"), plus(c, "0.05"), plus(c, "-0.25"), c, "1")
        })
        .collect()
}

#[test]
fn the_default_floors() {
    let cfg = EngineConfig::default();
    assert_eq!(cfg.min_confidence, dec("0.76"));
    assert_eq!(cfg.min_risk_reward, dec("2"));
    assert_eq!(cfg.max_signals, 2);
}

#[test]
fn too_few_candles_give_no_signal() {
    let cfg = EngineConfig::default();
    let v = plan("btcusdt", &bounce()[..54], dec("100"), dec("0.05"), &cfg).unwrap();
    assert!(v.is_empty());
}

#[test]
fn a_quiet_market_gives_no_signal() {
    let cfg = EngineConfig::default();
    assert!(plan("btcusdt", &quiet(55), dec("100"), dec("0.05"), &cfg).unwrap().is_empty());
}

#[test]
fn a_volume_breakout() {
    let cfg = EngineConfig::default();
    let mut v = quiet(55);
    v[54].volume = Quantity::new(dec("3"));
    let s = plan("btcusdt", &v, dec("100"), dec("0.05"), &cfg).unwrap();
    assert_eq!(s.len(), 1);
    assert_eq!(s[0].symbol.as_str(), "BTCUSDT");
    assert_eq!(s[0].kind, SetupKind::VolumeBreakout);
    // The price is not above its average.
    assert_eq!(s[0].direction, Direction::Short);
    assert_eq!(s[0].entry.0, dec("100"));
    assert_eq!(s[0].take_profit.0, dec("95"));
    assert_eq!(s[0].stop_loss.0, dec("102"));
    assert_eq!(s[0].risk_reward, dec("2.5"));
    assert_eq!(s[0].confidence, dec("0.87"));
    assert_eq!(s[0].size_usd, dec("5"));
    assert_eq!(
        s[0].reasons,
        vec![
            "Volume spike 3.0× average",
            "Price vs EMA20: 100.0000 vs 100.0000",
            "RSI 100.0",
        ]
    );
    // The average is that of the 20 bars before: 41 / 20, and then 3 / 2.05.
    v[34].volume = Quantity::new(dec("22"));
    assert!(plan("btcusdt", &v, dec("100"), dec("0.05"), &cfg).unwrap().is_empty());
    v[54].volume = Quantity::new(dec("6.15"));
    let s = plan("btcusdt", &v, dec("100"), dec("0.05"), &cfg).unwrap();
    assert_eq!(s[0].confidence, dec("0.87"));
    v[34].volume = v[33].volume;
    v[33].volume = Quantity::new(dec("22"));
    v[54].volume = Quantity::new(dec("2.99"));
    assert!(plan("btcusdt", &v, dec("100"), dec("0.05"), &cfg).unwrap().is_empty());
    v[54].volume = Quantity::new(dec("50"));
    let s = plan("btcusdt", &v, dec("100"), dec("0.05"), &cfg).unwrap();
    assert_eq!(s[0].confidence, dec("0.93"));
}

#[test]
fn a_bounce_comes_before_a_sweep() {
    let cfg = EngineConfig::default();
    let s = plan("x", &bounce(), dec("5"), dec("0.02"), &cfg).unwrap();
    assert_eq!(s.len(), 2);
    assert_eq!(s[0].kind, SetupKind::OrderBlockBounce);
    assert_eq!(s[0].direction, Direction::Long);
    assert_eq!(s[0].entry.0, dec("97.7"));
    assert_eq!(s[0].take_profit.0, dec("99.62"));
    assert_eq!(s[0].stop_loss.0, dec("97.3"));
    assert_eq!(s[0].risk_reward, dec("4.8"));
    assert_eq!(s[0].confidence, dec("0.94"));
    assert_eq!(s[0].size_usd, dec("0.5"));
    assert_eq!(s[0].reasons.len(), 5);
    assert_eq!(s[0].reasons[0], "Long Order Block $97.600000–$100.000000 (strength 62%)");
    assert_eq!(s[0].reasons[1], "Long Liquidity Sweep");
    assert!(s[0].reasons[2].starts_with("RSI oversold "), "{}", s[0].reasons[2]);
    assert!(s[0].reasons[3].starts_with("VWAP "), "{}", s[0].reasons[3]);
    assert_eq!(s[0].reasons[4], "OB strength 62%");
    assert_eq!(s[1].kind, SetupKind::LiquiditySweepReversal);
    assert_eq!(s[1].take_profit.0, dec("100.1"));
    assert_eq!(s[1].stop_loss.0, dec("97.1"));
    assert_eq!(s[1].risk_reward, dec("4"));
    assert_eq!(s[1].confidence, dec("0.92"));
    assert_eq!(s[1].reasons.len(), 3);
}

#[test]
fn floors_and_the_cap_leave_signals_out() {
    let kinds = |cfg: &EngineConfig| -> Vec<SetupKind> {
        let s = plan("x", &bounce(), dec("5"), dec("0.02"), cfg).unwrap();
        s.iter().map(|p| p.kind).collect()
    };
    let base = EngineConfig::default();
    let one = EngineConfig { max_signals: 1, ..base };
    assert_eq!(kinds(&one), vec![SetupKind::OrderBlockBounce]);
    let sure = EngineConfig { min_confidence: dec("0.93"), ..base };
    assert_eq!(kinds(&sure), vec![SetupKind::OrderBlockBounce]);
    let steep = EngineConfig { min_risk_reward: dec("4.5"), ..base };
    assert_eq!(kinds(&steep), vec![SetupKind::OrderBlockBounce]);
    let none = EngineConfig { max_signals: 0, ..base };
    assert!(kinds(&none).is_empty());
}

#[test]
fn a_break_of_structure_with_the_trend() {
    let cfg = EngineConfig::default();
    let s = plan("x", &rise(), dec("100"), dec("0.05"), &cfg).unwrap();
    assert_eq!(s.len(), 1);
    assert_eq!(s[0].kind, SetupKind::BreakOfStructure);
    assert_eq!(s[0].direction, Direction::Long);
    assert_eq!(s[0].confidence, dec("0.79"));
    assert_eq!(s[0].take_profit.0, dec("106.45"));
    assert_eq!(s[0].stop_loss.0, dec("105.04"));
    assert_eq!(s[0].reasons[0], "Long Break of Structure");
    assert!(s[0].reasons[1].contains(" > EMA50 "), "{}", s[0].reasons[1]);
}

/// Candles through some closes, with a wick of a half on either side.
fn through(closes: &[i64]) -> Vec<Candle> {
    let mut open = closes[0];
    closes
        .iter()
        .map(|&close| {
            let high = Decimal::new(open.max(close) * 10 + 5, 1);
            let low = Decimal::new(open.min(close) * 10 - 5, 1);
            let c = candle(Decimal::new(open, 0), high, low, Decimal::new(close, 0), "1");
            open = close;
            c
        })
        .collect()
}

#[test]
fn a_divergence_after_a_sweep() {
    let cfg = EngineConfig::default();
    let mut closes = vec![1200; 27];
    closes.extend((1..=14).map(|i| 1200 - i));
    for i in 0..7 {
        closes.extend([1184 - i, 1185 - i]);
    }
    let s = plan("x", &through(&closes), dec("100"), dec("0.05"), &cfg).unwrap();
    assert_eq!(s.len(), 2);
    assert_eq!(s[0].kind, SetupKind::LiquiditySweepReversal);
    assert_eq!(s[0].confidence, dec("0.83"));
    assert_eq!((s[0].take_profit.0, s[0].stop_loss.0), (dec("1189"), dec("1176.5")));
    assert_eq!(s[1].kind, SetupKind::RsiDivergence);
    assert_eq!(s[1].direction, Direction::Long);
    assert_eq!(s[1].confidence, dec("0.77"));
    assert_eq!((s[1].take_profit.0, s[1].stop_loss.0), (dec("1186.5"), dec("1175.25")));
    assert_eq!(s[1].risk_reward, dec("2"));
    assert_eq!(s[1].reasons[0], "Long RSI Divergence");
    assert_eq!(s[1].reasons.len(), 3);
}

#[test]
fn a_change_of_character_that_macd_confirms() {
    let cfg = EngineConfig::default();
    let mut closes = vec![1200; 15];
    closes.extend((1..=20).map(|i| 1200 - i));
    closes.extend([1180; 19]);
    closes.push(1208);
    let s = plan("x", &through(&closes), dec("100"), dec("0.05"), &cfg).unwrap();
    assert_eq!(s.len(), 1);
    assert_eq!(s[0].kind, SetupKind::ChangeOfCharacter);
    assert_eq!(s[0].direction, Direction::Long);
    assert_eq!(s[0].confidence, dec("0.91"));
    assert_eq!((s[0].take_profit.0, s[0].stop_loss.0), (dec("1221.5"), dec("1203.5")));
    assert_eq!(s[0].risk_reward, dec("3"));
    assert_eq!(s[0].reasons.len(), 4);
    assert_eq!(s[0].reasons[0], "Long Change of Character");
    assert!(s[0].reasons[1].starts_with("MACD histogram "), "{}", s[0].reasons[1]);
    assert_eq!(s[0].reasons[3], "SMC score 45%");
}

#[test]
fn signals_carry_an_id_and_a_time() {
    let cfg = EngineConfig::default();
    let s = evaluate("x", &bounce(), dec("5"), dec("0.02"), &cfg).unwrap();
    assert_eq!(s.len(), 2);
    assert_eq!(s[0].kind, SetupKind::OrderBlockBounce);
    assert_eq!(s[1].kind, SetupKind::LiquiditySweepReversal);
    assert_ne!(s[0].id, s[1].id);
    assert_eq!((s[0].id >> 76) & 0xf, 4);
    assert!(s[0].created_at > 1_600_000_000_000);
    let p = plan("x", &bounce(), dec("5"), dec("0.02"), &cfg).unwrap().remove(1);
    let b = build(p, 7, 11);
    assert_eq!((b.id, b.created_at, b.confidence), (7, 11, dec("0.92")));
}

#[test]
fn a_size_out_of_range_is_reported() {
    let cfg = EngineConfig::default();
    let most = Decimal::from_parts(79228162514264337593543950335, 0).unwrap();
    assert!(plan("x", &quiet(55), most, dec("2"), &cfg).is_none());
    assert!(evaluate("x", &quiet(55), most, dec("2"), &cfg).is_none());
}

#[test]
fn targets_lie_on_the_two_sides_of_the_entry() {
    let (tp, sl) = tp_sl_symmetric(dec("100"), dec("2"), dec("4.5"), dec("1.5"), Direction::Long);
    assert_eq!((tp, sl), (Some(dec("109")), Some(dec("97"))));
    let (tp, sl) = tp_sl_symmetric(dec("100"), dec("2"), dec("4.5"), dec("1.5"), Direction::Short);
    assert_eq!((tp, sl), (Some(dec("91")), Some(dec("103"))));
}

#[test]
fn reward_over_risk_by_hand() {
    assert_eq!(risk_reward(dec("100"), dec("109"), dec("97")), Some(dec("3")));
    assert_eq!(risk_reward(dec("100"), dec("91"), dec("103")), Some(dec("3")));
    assert_eq!(risk_reward(dec("100"), dec("109"), dec("100")), Some(Decimal::zero()));
}

#[test]
fn ranking_is_stable() {
    let keys = ["2", "3", "2.0", "5", "3.00"].iter().map(|k| dec(k)).collect();
    assert_eq!(rank(vec!["a", "b", "c", "d", "e"], keys), vec!["d", "b", "e", "a", "c"]);
}

#[test]
fn targets_and_stops_face_each_other() {
    let cfg = EngineConfig::default();
    let mut loud = quiet(55);
    loud[54].volume = Quantity::new(dec("9"));
    for candles in [bounce(), rise(), loud] {
        for p in plan("x", &candles, dec("5"), dec("0.02"), &cfg).unwrap() {
            let (tp, sl) = (p.take_profit.0, p.stop_loss.0);
            match p.direction {
                Direction::Long => assert!(sl.at_most(p.entry.0) && p.entry.0.at_most(tp)),
                Direction::Short => assert!(tp.at_most(p.entry.0) && p.entry.0.at_most(sl)),
            }
        }
    }
}

#[test]
fn a_market_of_extreme_prices_is_judged() {
    let cfg = EngineConfig::default();
    let (zero, most, least) = (dec("0"), dec("1000000000000"), dec("0.00000001"));
    let mut v: Vec<Candle> = Vec::new();
    for i in 0..60 {
        let (open, close) = if i % 2 == 0 { (zero, most) } else { (most, zero) };
        v.push(candle(open, most, zero, close, "0.00000001"));
    }
    v.push(candle(zero, most, zero, least, "1000000000000"));
    assert!(plan("x", &v, dec("1"), dec("0.02"), &cfg).is_some());
    let mut v: Vec<Candle> = Vec::new();
    for i in 0..60 {
        let close = if i % 3 == 0 { zero } else { least };
        v.push(candle(least, least, zero, close, "0"));
    }
    assert!(plan("x", &v, dec("1"), dec("0.02"), &cfg).is_some());
}
