use trading_bot::decimal::Decimal;
use trading_bot::store::{
    metrics, seconds, setup_stats, signal_row, symbol_stats, Account, DbError, KeyedRow, TradeRow,
};
use trading_bot::types::{Direction, Price, SetupKind, Signal, Symbol};

fn dec(text: &str) -> Decimal {
    Decimal::parse(text).unwrap()
}

fn row(outcome: &str, pnl: &str) -> TradeRow {
    TradeRow { outcome: outcome.to_string(), pnl: dec(pnl) }
}

fn keyed(key: &str, outcome: &str, pnl: &str) -> KeyedRow {
    KeyedRow { key: key.to_string(), outcome: outcome.to_string(), pnl: dec(pnl) }
}

fn most() -> Decimal {
    Decimal::from_parts(79228162514264337593543950335, 0).unwrap()
}

#[test]
fn an_account_books_its_trades() {
    let mut a = Account::new();
    assert_eq!((a.capital, a.peak), (dec("1"), dec("1")));
    a.close_trade(dec("0.5")).unwrap();
    a.close_trade(dec("-0.2")).unwrap();
    assert_eq!(a.capital, dec("1.3"));
    assert_eq!(a.peak, dec("1.5"));
    assert_eq!(a.total_pnl, dec("0.3"));
    assert_eq!(a.daily_pnl, dec("0.3"));
    a.reset_daily(1700000000);
    assert_eq!(a.daily_pnl, Decimal::zero());
    assert_eq!(a.total_pnl, dec("0.3"));
    assert_eq!(a.last_reset, 1700000000);
}

#[test]
fn a_balance_out_of_range_is_not_booked() {
    let mut a = Account::new();
    let e = a.close_trade(most()).unwrap_err();
    assert_eq!(e.to_string(), "Balance out of range");
    assert_eq!(a.capital, dec("1"));
}

#[test]
fn database_errors_are_written_out() {
    assert_eq!(DbError::Sqlite("x".to_string()).to_string(), "SQLite error: x");
    assert_eq!(DbError::Serde("x".to_string()).to_string(), "Serialisation error: x");
}

#[test]
fn metrics_of_no_trades() {
    let m = metrics(&[], dec("1"), dec("1"), dec("0.25")).unwrap();
    assert_eq!((m.total, m.wins, m.losses), (0, 0, 0));
    assert_eq!(m.win_rate, Decimal::zero());
    assert_eq!(m.avg_win_usd, Decimal::zero());
    assert_eq!(m.avg_loss_usd, dec("1"));
    assert_eq!(m.profit_factor, Decimal::zero());
    assert_eq!(m.max_drawdown, Decimal::zero());
    assert_eq!(m.kelly_fraction, dec("0.01"));
    assert_eq!(m.capital, dec("1"));
}

#[test]
fn metrics_by_hand() {
    let rows = vec![
        row("WIN", "0.6"),
        row("LOSS", "-0.4"),
        row("OPEN", "-0.2"),
        row("WIN", "1"),
        row("WIN", "0.5"),
    ];
    let m = metrics(&rows, dec("1"), dec("2.5"), dec("0.25")).unwrap();
    assert_eq!((m.total, m.wins, m.losses), (4, 3, 1));
    assert_eq!(m.win_rate, dec("0.75"));
    assert_eq!(m.avg_win_usd, dec("0.7"));
    assert_eq!(m.avg_loss_usd, dec("0.4"));
    assert_eq!(m.profit_factor, dec("5.25"));
    assert_eq!(m.total_pnl, dec("1.7"));
    // From 1.6 to 1.0.
    assert_eq!(m.max_drawdown, dec("0.375"));
    // b = 1.75, (0.75·1.75 − 0.25) / 1.75 · 0.25 is above the cap.
    assert_eq!(m.kelly_fraction, dec("0.10"));
    assert_eq!(m.capital, dec("2.5"));
}

#[test]
fn the_kelly_fraction_follows_its_multiplier() {
    // p = 0.5, b = 2: full Kelly 0.25.
    let rows = vec![row("WIN", "2"), row("LOSS", "-1")];
    let k = |m: &str| metrics(&rows, dec("1"), dec("1"), dec(m)).unwrap().kelly_fraction;
    assert_eq!(k("0.25"), dec("0.0625"));
    assert_eq!(k("0.2"), dec("0.05"));
    assert_eq!(k("0.01"), dec("0.01"));
}

#[test]
fn a_profit_factor_without_losses_is_the_profit() {
    let m = metrics(&[row("WIN", "2.5")], dec("1"), dec("3.5"), dec("0.25")).unwrap();
    assert_eq!(m.profit_factor, dec("2.5"));
    assert!(metrics(&[row("WIN", &"9".repeat(28)), row("WIN", &"9".repeat(28))], dec("1"), dec("1"),
        dec("1")).is_some());
    let over = vec![TradeRow { outcome: "WIN".to_string(), pnl: most() }];
    assert!(metrics(&over, dec("1"), dec("1"), dec("0.25")).is_none());
}

#[test]
fn stats_are_kept_by_key() {
    let rows = vec![
        keyed("A", "WIN", "1"),
        keyed("B", "LOSS", "-2"),
        keyed("A", "LOSS", "-0.5"),
        keyed("A", "WIN", "3"),
    ];
    let s = setup_stats(&rows).unwrap();
    assert_eq!(s.len(), 2);
    assert_eq!((s[0].kind.as_str(), s[0].total, s[0].wins), ("A", 3, 2));
    assert_eq!(s[0].total_pnl, dec("3.5"));
    assert_eq!((s[1].kind.as_str(), s[1].total, s[1].wins), ("B", 1, 0));
    assert_eq!(s[1].win_rate(), Decimal::zero());
    let y = symbol_stats(&rows).unwrap();
    assert_eq!((y[0].symbol.as_str(), y[0].total, y[0].wins), ("A", 3, 2));
    assert_eq!(y[1].total_pnl, dec("-2"));
    assert_eq!(y.iter().map(|x| x.total).sum::<usize>(), rows.len());
    assert!(setup_stats(&[]).unwrap().is_empty());
    let over = vec![
        KeyedRow { key: "A".to_string(), outcome: "WIN".to_string(), pnl: most() },
        KeyedRow { key: "A".to_string(), outcome: "WIN".to_string(), pnl: most() },
    ];
    assert!(setup_stats(&over).is_none());
    assert!(symbol_stats(&over).is_none());
}

#[test]
fn signals_are_written_for_their_row() {
    let s = Signal {
        id: 0x0123456789ab4def8123456789abcdef,
        symbol: Symbol::new("btcusdt"),
        direction: Direction::Short,
        kind: SetupKind::VolumeBreakout,
        entry: Price::new(dec("1")),
        take_profit: Price::new(dec("1")),
        stop_loss: Price::new(dec("1")),
        risk_reward: dec("2"),
        confidence: dec("0.8"),
        size_usd: dec("1"),
        reasons: vec!["a".to_string(), "b".to_string()],
        created_at: 1700000000999,
    };
    let r = signal_row(&s);
    assert_eq!(r.id, "01234567-89ab-4def-8123-456789abcdef");
    assert_eq!(r.symbol, "BTCUSDT");
    assert_eq!(r.direction, "SHORT");
    assert_eq!(r.kind, "Volume Breakout");
    assert_eq!(r.reasons, "a|b");
    assert_eq!(r.created_at, 1700000000);
    assert_eq!(seconds(-1), -1);
    assert_eq!(seconds(-1000), -1);
    assert_eq!(seconds(i64::MIN), i64::MIN.div_euclid(1000));
}

#[test]
fn the_peak_is_never_below_the_capital() {
    let mut a = Account::new();
    for pnl in [5, -3, 1, -9, 20] {
        a.close_trade(Decimal::new(pnl, 1)).unwrap();
        assert!(a.capital.at_most(a.peak));
    }
    assert_eq!(a.peak, Decimal::new(24, 1));
    assert_eq!(a.capital, Decimal::new(24, 1));
}

#[test]
fn a_drawdown_needs_a_fall() {
    let drawdown = |pnls: &[&str]| {
        let rows: Vec<TradeRow> = pnls
            .iter()
            .map(|p| row(if p.starts_with('-') { "LOSS" } else { "WIN" }, p))
            .collect();
        metrics(&rows, dec("4"), dec("4"), dec("0.25")).unwrap().max_drawdown
    };
    assert_eq!(drawdown(&["1", "0", "2"]), Decimal::zero());
    assert_eq!(drawdown(&["1", "-1", "9"]), dec("0.2"));
    // The least fall that shows in four dollars, and one that is rounded away.
    assert!(Decimal::zero().less(drawdown(&["-0.0000000000000000000000000003"])));
    assert_eq!(drawdown(&["-0.0000000000000000000000000001"]), Decimal::zero());
}
