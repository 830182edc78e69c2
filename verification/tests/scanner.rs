use trading_bot::decimal::Decimal;
use trading_bot::exchange::Ticker24h;
use trading_bot::orchestrator::watchlist;
use trading_bot::scanner::{
    candidates, scan, score_coin, score_if_enough, top_coins, Fetched, MIN_CANDLES_FOR_SCORE,
};
use trading_bot::types::{Candle, CoinScore, Price, Quantity, Symbol};

fn dec(text: &str) -> Decimal {
    Decimal::parse(text).unwrap()
}

fn ticker(symbol: &str, volume: &str) -> Ticker24h {
    Ticker24h {
        symbol: Symbol::new(symbol),
        price_change_pct: dec("-1.5"),
        last_price: Price::new(dec("100")),
        volume: dec("1"),
        quote_volume: dec(volume),
        high: Price::new(dec("100")),
        low: Price::new(dec("100")),
        count: 1,
    }
}

fn flat(n: usize) -> Vec<Candle> {
    (0..n)
        .map(|_| Candle {
            symbol: Symbol::new("X"),
            open_time: 0,
            open: Price::new(dec("100")),
            high: Price::new(dec("101")),
            low: Price::new(dec("99")),
            close: Price::new(dec("100")),
            volume: Quantity::new(Decimal::one()),
            quote_volume: Decimal::one(),
            taker_buy_volume: Decimal::one(),
            is_closed: true,
        })
        .collect()
}

fn scored(symbol: &str, composite: &str) -> CoinScore {
    CoinScore {
        symbol: Symbol::new(symbol),
        composite: dec(composite),
        volume_24h: Decimal::zero(),
        change_24h: Decimal::zero(),
        volatility: Decimal::zero(),
        smc_score: Decimal::zero(),
        trend_bullish: false,
    }
}

#[test]
fn small_and_leveraged_pairs_are_left_out() {
    let list = vec![
        ticker("BTCUSDT", "2000000"),
        ticker("ETHUSDT", "1999999.99"),
        ticker("BTCUPUSDT", "9000000"),
        ticker("BTCDOWNUSDT", "9000000"),
        ticker("BULLUSDT", "9000000"),
        ticker("BEARUSDT", "9000000"),
        ticker("XRPUSDT", "3000000"),
    ];
    let c = candidates(&list, dec("2000000"));
    let names: Vec<&str> = c.iter().map(|t| t.symbol.as_str()).collect();
    assert_eq!(names, vec!["BTCUSDT", "XRPUSDT"]);
    assert_eq!(c[1].quote_volume, dec("3000000"));
}

#[test]
fn a_flat_coin_scores_by_volume_and_volatility() {
    let s = score_coin(
        &Symbol::new("X"),
        &flat(MIN_CANDLES_FOR_SCORE),
        &ticker("X", "1000000"),
        dec("6"),
    )
    .unwrap();
    // An ATR of 2 % and a third of the volume benchmark left: 6/9·0.3 + 2/5·0.2
    assert_eq!(s.volatility, dec("2"));
    assert_eq!(s.composite.round_dp(20), dec("0.28"));
    assert_eq!(s.volume_24h, dec("1000000"));
    assert_eq!(s.change_24h, dec("-1.5"));
    assert_eq!(s.smc_score, Decimal::zero());
    assert!(!s.trend_bullish);
}

#[test]
fn shares_of_a_score_are_capped() {
    let s = score_coin(&Symbol::new("X"), &flat(60), &ticker("X", "1"), dec("90")).unwrap();
    assert_eq!(s.composite, dec("0.38"));
    let s = score_coin(&Symbol::new("X"), &flat(60), &ticker("X", "0"), dec("-90")).unwrap();
    assert_eq!(s.composite, dec("0.08"));
    let s = score_coin(&Symbol::new("X"), &[], &ticker("X", "0"), dec("9")).unwrap();
    assert_eq!(s.composite, dec("0.3"));
    assert_eq!(s.volatility, Decimal::zero());
}

#[test]
fn a_score_out_of_range_is_reported() {
    let most = Decimal::from_parts(79228162514264337593543950335, 0).unwrap();
    let mut c = flat(60);
    c[59].high = Price::new(most);
    c[59].low = Price::new(most.negated());
    assert!(score_coin(&Symbol::new("X"), &c, &ticker("X", "1"), dec("9")).is_none());
}

#[test]
fn the_best_coins_come_first() {
    let all = || vec![scored("A", "0.3"), scored("B", "0.7"), scored("C", "0.30"), scored("D", "0.5")];
    let names = |v: Vec<CoinScore>| -> Vec<String> {
        watchlist(&v).iter().map(|s| s.to_string()).collect()
    };
    assert_eq!(names(top_coins(all(), 9)), vec!["B", "D", "A", "C"]);
    assert_eq!(names(top_coins(all(), 2)), vec!["B", "D"]);
    assert!(names(top_coins(all(), 0)).is_empty());
}

#[test]
fn a_coin_with_too_few_candles_has_no_score() {
    let symbol = Symbol::new("X");
    let t = ticker("X", "1000000");
    assert!(score_if_enough(&symbol, &flat(54), &t, dec("6")).is_none());
    let a = score_if_enough(&symbol, &flat(55), &t, dec("6")).unwrap();
    let b = score_coin(&symbol, &flat(55), &t, dec("6")).unwrap();
    assert_eq!(a.composite, b.composite);
    assert_eq!(a.symbol.as_str(), "X");
}

#[test]
fn a_scan_ranks_what_was_fetched() {
    let fetched = |symbol: &str, n: usize, log: &str| Fetched {
        ticker: ticker(symbol, "1000000"),
        candles: flat(n),
        log_volume: dec(log),
    };
    let list = vec![
        fetched("LOWUSDT", 60, "6"),
        fetched("NEWUSDT", 54, "9"),
        fetched("TOPUSDT", 55, "8"),
        fetched("MIDUSDT", 100, "7"),
    ];
    let names = |n: usize| -> Vec<String> {
        scan(&list, n).iter().map(|c| c.symbol.to_string()).collect()
    };
    assert_eq!(names(2), vec!["TOPUSDT", "MIDUSDT"]);
    assert_eq!(names(9), vec!["TOPUSDT", "MIDUSDT", "LOWUSDT"]);
    assert!(scan(&[], 3).is_empty());
}
