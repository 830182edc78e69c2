use rust_decimal::prelude::ToPrimitive;
use trading_bot::config::Config;
use trading_bot::decimal::Decimal;
use trading_bot::risk::{RiskError, RiskManager};
use trading_bot::store::full_kelly;
use trading_bot::types::Metrics;

fn d(v: f64) -> Decimal {
    let x = rust_decimal::Decimal::try_from(v).unwrap();
    Decimal::from_parts(x.mantissa(), x.scale()).unwrap()
}

fn f(x: Decimal) -> f64 {
    rust_decimal::Decimal::from_i128_with_scale(x.mantissa(), x.scale()).to_f64().unwrap()
}

fn manager() -> RiskManager {
    let mut env: Vec<(String, String)> = Vec::new();
    for k in ["BINANCE_API_KEY", "BINANCE_SECRET", "TELEGRAM_TOKEN", "TELEGRAM_CHAT_ID"] {
        env.push((k.to_string(), "x".to_string()));
    }
    RiskManager::new(&Config::from_env(&env).unwrap())
}

fn metrics(capital: f64, kelly: f64) -> Metrics {
    Metrics { capital: d(capital), kelly_fraction: d(kelly), ..Metrics::default() }
}

// Kelly formula sanity check
#[test]
fn kelly_formula_positive_edge() {
    // 55% win rate, 2:1 avg win/loss
    let p = 0.55_f64;
    let b = 2.0_f64;
    let full = f(full_kelly(d(p), d(b)).unwrap());
    // f* ≈ 0.275  →  quarter-Kelly ≈ 0.069 (6.9%)
    let quarter = full * 0.25;
    assert!(quarter > 0.0 && quarter < 0.10, "quarter-Kelly={quarter:.3}");
}

#[test]
fn kelly_negative_edge_is_zero_or_negative() {
    let p = 0.40_f64;
    let b = 1.0_f64;
    let full = f(full_kelly(d(p), d(b)).unwrap());
    assert!(full < 0.0, "f={full}");
}

#[test]
fn kelly_by_hand() {
    // (0.55·2 − 0.45) / 2
    assert_eq!(full_kelly(d(0.55), d(2.0)), Some(d(0.325)));
    assert_eq!(full_kelly(d(0.4), d(1.0)), Some(d(-0.2)));
    assert_eq!(full_kelly(d(0.4), d(0.0)), None);
}

#[test]
fn trading_is_permitted_within_the_limits() {
    let mut r = manager();
    assert!(r.pre_trade_check(d(100.0), d(-5.0), d(0.15)).is_ok());
    assert!(!r.is_halted());
}

#[test]
fn a_daily_loss_beyond_the_cap_halts_trading() {
    let mut r = manager();
    let e = r.pre_trade_check(d(100.0), d(-5.01), d(0.0)).unwrap_err();
    assert_eq!(e.to_string(), "Daily loss cap hit ($5.01 loss vs $5.00 cap)");
    assert!(r.is_halted());
    // Whatever comes later, until the breaker is reset.
    let e = r.pre_trade_check(d(100.0), d(5.0), d(0.0)).unwrap_err();
    assert_eq!(e.to_string(), "Circuit breaker active — trading halted until reset");
    r.reset_breaker();
    assert!(r.pre_trade_check(d(100.0), d(5.0), d(0.0)).is_ok());
}

#[test]
fn a_drawdown_beyond_the_limit_halts_trading() {
    let mut r = manager();
    let e = r.pre_trade_check(d(100.0), d(0.0), d(0.1501)).unwrap_err();
    assert_eq!(e.to_string(), "Max drawdown exceeded (15.0% vs 15.0% limit)");
    assert!(r.is_halted());
}

#[test]
fn the_breaker_can_be_tripped_by_hand() {
    let mut r = manager();
    r.trip_breaker();
    assert!(r.is_halted());
    assert!(matches!(
        r.pre_trade_check(d(100.0), d(0.0), d(0.0)),
        Err(RiskError::CircuitBreaker)
    ));
}

#[test]
fn a_limit_out_of_range_is_refused() {
    let mut r = manager();
    r.max_daily_loss_pct = d(100.0);
    let most = Decimal::from_parts(79228162514264337593543950335, 0).unwrap();
    let e = r.pre_trade_check(most, d(0.0), d(0.0)).unwrap_err();
    assert_eq!(e.to_string(), "Risk limit out of range");
    assert!(r.is_halted());
    assert!(matches!(
        r.pre_trade_check(d(1.0), d(0.0), d(0.0)),
        Err(RiskError::CircuitBreaker)
    ));
    r.reset_breaker();
    assert!(r.pre_trade_check(d(1.0), d(0.0), d(0.0)).is_ok());
}

#[test]
fn percentages_up_to_a_hundredth_of_the_largest_are_answered() {
    let mut r = manager();
    let deep = Decimal::from_parts(792281625142643375935439503, 0).unwrap();
    assert!(matches!(
        r.pre_trade_check(d(1.0), d(0.0), deep),
        Err(RiskError::MaxDrawdown { .. })
    ));
    r.reset_breaker();
    let deeper = Decimal::from_parts(792281625142643375935439504, 0).unwrap();
    assert!(matches!(r.pre_trade_check(d(1.0), d(0.0), deeper), Err(RiskError::OutOfRange)));
    assert!(r.is_halted());
}

#[test]
fn a_position_is_between_a_dollar_and_the_cap() {
    let r = manager();
    assert_eq!(r.position_size(&metrics(1000.0, 0.05)), Some(d(50.0)));
    assert_eq!(r.position_size(&metrics(20.0, 0.01)), Some(d(1.0)));
    assert_eq!(r.position_size(&metrics(1000.0, 0.5)), Some(d(100.0)));
    assert_eq!(r.position_size(&metrics(10.0, 0.5)), Some(d(1.0)));
}

#[test]
fn the_cap_of_a_trade_wins_over_the_least_amount() {
    let mut r = manager();
    // A tenth of nine dollars, and of one, is less than one.
    assert_eq!(r.position_size(&metrics(9.0, 0.5)), Some(d(0.9)));
    assert_eq!(r.position_size(&metrics(1.0, 0.01)), Some(d(0.1)));
    let most = Decimal::from_parts(79228162514264337593543950335, 0).unwrap();
    r.max_trade_size_pct = d(2.0);
    let m = Metrics { capital: most, kelly_fraction: d(0.5), ..Metrics::default() };
    assert_eq!(r.position_size(&m), None);
}
