use trading_bot::config::Config;
use trading_bot::decimal::Decimal;
use trading_bot::exchange::{ExchangeError, PriceMap};
use trading_bot::learning::{pnl_usd, LearnError, LearningEngine, EXPIRY_MS};
use trading_bot::store::DbError;
use trading_bot::types::{Direction, Metrics, Outcome, Price, SetupKind, Signal, Symbol};

fn dec(text: &str) -> Decimal {
    Decimal::parse(text).unwrap()
}

fn engine() -> LearningEngine {
    let mut env: Vec<(String, String)> = Vec::new();
    for k in ["BINANCE_API_KEY", "BINANCE_SECRET", "TELEGRAM_TOKEN", "TELEGRAM_CHAT_ID"] {
        env.push((k.to_string(), "x".to_string()));
    }
    LearningEngine::new(&Config::from_env(&env).unwrap())
}

fn signal(name: &str, direction: Direction, tp: &str, sl: &str) -> Signal {
    Signal {
        id: 9,
        symbol: Symbol::new(name),
        direction,
        kind: SetupKind::RsiDivergence,
        entry: Price::new(dec("100")),
        take_profit: Price::new(dec(tp)),
        stop_loss: Price::new(dec(sl)),
        risk_reward: dec("2"),
        confidence: dec("0.8"),
        size_usd: dec("10"),
        reasons: vec![],
        created_at: 1000,
    }
}

fn prices(list: &[(&str, &str)]) -> PriceMap {
    let mut m = PriceMap::new();
    for (s, p) in list {
        m.insert(Symbol::new(s), Price::new(dec(p)));
    }
    m
}

#[test]
fn results_follow_the_direction() {
    assert_eq!(pnl_usd(Direction::Long, dec("100"), dec("110"), dec("10")), Some(dec("1")));
    assert_eq!(pnl_usd(Direction::Short, dec("100"), dec("110"), dec("10")), Some(dec("-1")));
    assert_eq!(pnl_usd(Direction::Long, dec("0"), dec("110"), dec("10")), None);
}

#[test]
fn a_signal_is_recorded_once_it_is_saved() {
    let mut e = engine();
    assert!(e.record(signal("A", Direction::Long, "110", "95"), Ok(())).is_ok());
    assert_eq!(e.open_count(), 1);
    assert_eq!(e.open_trades[0].outcome, Outcome::Open);
    let r = e.record(
        signal("A", Direction::Long, "110", "95"),
        Err(DbError::Sqlite("locked".to_string())),
    );
    assert_eq!(r.unwrap_err().to_string(), "Database error: SQLite error: locked");
    assert_eq!(e.open_trades.len(), 1);
    assert_eq!(
        LearnError::Exchange(ExchangeError::RateLimit).to_string(),
        "Exchange error: Rate limit exceeded — back off and retry"
    );
}

#[test]
fn trades_close_at_target_and_stop() {
    let mut e = engine();
    e.record(signal("A", Direction::Long, "110", "95"), Ok(())).unwrap();
    e.record(signal("B", Direction::Short, "90", "105"), Ok(())).unwrap();
    e.record(signal("C", Direction::Long, "110", "95"), Ok(())).unwrap();
    e.record(signal("D", Direction::Long, "110", "95"), Ok(())).unwrap();
    let c = e.evaluate_at(&prices(&[("A", "111"), ("B", "106"), ("C", "100")]), 2000);
    assert_eq!(c.len(), 2);
    assert_eq!((c[0].index, c[0].outcome), (0, Outcome::Win));
    assert_eq!((c[0].exit, c[0].pnl), (dec("110"), dec("1")));
    assert_eq!((c[1].index, c[1].outcome), (1, Outcome::Loss));
    assert_eq!((c[1].exit, c[1].pnl), (dec("105"), dec("-0.5")));
    assert_eq!(e.open_count(), 2);
    assert_eq!(e.open_trades[0].closed_at, Some(2000));
    assert_eq!(e.open_trades[0].exit_price.unwrap().0, dec("110"));
    assert_eq!(e.open_trades[1].pnl_usd, Some(dec("-0.5")));
    assert_eq!(e.open_trades[2].outcome, Outcome::Open);
    // What is closed stays closed.
    let c = e.evaluate_at(&prices(&[("A", "1"), ("B", "1")]), 3000);
    assert!(c.is_empty());
    assert_eq!(e.open_trades[0].closed_at, Some(2000));
}

#[test]
fn trades_expire_after_a_day_at_the_market() {
    let mut e = engine();
    e.record(signal("A", Direction::Long, "110", "95"), Ok(())).unwrap();
    let p = prices(&[("A", "100")]);
    assert!(e.evaluate_at(&p, 1000 + EXPIRY_MS - 1).is_empty());
    let c = e.evaluate_at(&p, 1000 + EXPIRY_MS);
    assert_eq!(c.len(), 1);
    assert_eq!((c[0].exit, c[0].pnl), (dec("100"), Decimal::zero()));
    // Nothing lost is a win.
    assert_eq!(c[0].outcome, Outcome::Win);
}

#[test]
fn an_old_trade_expires_now() {
    let mut e = engine();
    e.record(signal("A", Direction::Long, "110", "95"), Ok(())).unwrap();
    let c = e.evaluate_open(&prices(&[("A", "99")]));
    assert_eq!(c.len(), 1);
    assert_eq!(c[0].outcome, Outcome::Loss);
    assert!(e.open_trades[0].closed_at.unwrap() > 1_600_000_000_000);
}

#[test]
fn a_trade_without_a_result_stays_open() {
    let mut e = engine();
    let mut s = signal("A", Direction::Long, "110", "95");
    s.entry = Price::new(Decimal::zero());
    e.record(s, Ok(())).unwrap();
    assert!(e.evaluate_at(&prices(&[("A", "120")]), 2000).is_empty());
    assert_eq!(e.open_count(), 1);
}

#[test]
fn live_ready_is_told_once() {
    let mut e = engine();
    let mut m = Metrics {
        total: 50,
        win_rate: dec("0.54"),
        profit_factor: dec("1.5"),
        ..Metrics::default()
    };
    m.total = 49;
    assert!(!e.check_live_ready(&m));
    m.total = 50;
    m.win_rate = dec("0.5399");
    assert!(!e.check_live_ready(&m));
    m.win_rate = dec("0.54");
    m.profit_factor = dec("1.49");
    assert!(!e.check_live_ready(&m));
    m.profit_factor = dec("1.50");
    assert!(e.check_live_ready(&m));
    assert!(!e.check_live_ready(&m));
    assert!(e.live_notified);
}
