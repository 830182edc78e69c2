use trading_bot::config::{read_count, Config, ConfigError, Mode};
use trading_bot::decimal::Decimal;

fn env(extra: &[(&str, &str)]) -> Vec<(String, String)> {
    let mut v: Vec<(String, String)> = vec![
        ("BINANCE_API_KEY".to_string(), "key".to_string()),
        ("BINANCE_SECRET".to_string(), "secret".to_string()),
        ("TELEGRAM_TOKEN".to_string(), "token".to_string()),
        ("TELEGRAM_CHAT_ID".to_string(), "42".to_string()),
    ];
    for (k, x) in extra {
        v.push((k.to_string(), x.to_string()));
    }
    v
}

fn message(r: Result<Config, ConfigError>) -> String {
    match r {
        Ok(_) => "accepted".to_string(),
        Err(e) => e.to_string(),
    }
}

#[test]
fn mode_parses_paper() {
    assert_eq!("paper".parse::<Mode>().unwrap(), Mode::Paper);
    assert_eq!("PAPER".parse::<Mode>().unwrap(), Mode::Paper);
}

#[test]
fn mode_parses_live() {
    assert_eq!("live".parse::<Mode>().unwrap(), Mode::Live);
}

#[test]
fn mode_rejects_unknown() {
    assert!("staging".parse::<Mode>().is_err());
}

#[test]
fn mode_display() {
    assert_eq!(Mode::Paper.to_string(), "paper");
    assert_eq!(Mode::Live.to_string(), "live");
}

#[test]
fn defaults_stand_in_for_what_is_not_set() {
    let c = Config::from_env(&env(&[])).unwrap();
    assert_eq!(c.binance_api_key, "key");
    assert_eq!(c.binance_secret, "secret");
    assert_eq!(c.telegram_token, "token");
    assert_eq!(c.telegram_chat_id, "42");
    assert_eq!(c.mode, Mode::Paper);
    assert_eq!(c.starting_capital, Decimal::new(1, 0));
    assert_eq!(c.kelly_fraction, Decimal::new(25, 2));
    assert_eq!(c.max_trade_size_pct, Decimal::new(10, 2));
    assert_eq!(c.max_symbols, 15);
    assert_eq!(c.min_volume_usd, Decimal::new(2000000, 0));
    assert_eq!(c.min_trades_for_live, 50);
    assert_eq!(c.live_ready_win_rate, Decimal::new(54, 2));
    assert_eq!(c.live_ready_profit_factor, Decimal::new(15, 1));
    assert_eq!(c.max_daily_loss_pct, Decimal::new(5, 2));
    assert_eq!(c.max_drawdown_pct, Decimal::new(15, 2));
    assert_eq!(c.min_confidence, Decimal::new(76, 2));
    assert_eq!(c.min_risk_reward, Decimal::new(2, 0));
    assert_eq!(c.db_path, "pro_bot.db");
}

#[test]
fn variables_are_read() {
    let c = Config::from_env(&env(&[
        ("BOT_MODE", "Live"),
        ("STARTING_CAPITAL_USD", "250.50"),
        ("KELLY_FRACTION", "0.5"),
        ("MAX_ACTIVE_SYMBOLS", "7"),
        ("MIN_VOLUME_USD", "1000000"),
        ("MIN_TRADES_FOR_LIVE", "+80"),
        ("DB_PATH", "/tmp/bot.db"),
    ]))
    .unwrap();
    assert_eq!(c.mode, Mode::Live);
    assert_eq!(c.starting_capital, Decimal::new(25050, 2));
    assert_eq!(c.kelly_fraction, Decimal::new(5, 1));
    assert_eq!(c.max_symbols, 7);
    assert_eq!(c.min_volume_usd, Decimal::new(1000000, 0));
    assert_eq!(c.min_trades_for_live, 80);
    assert_eq!(c.db_path, "/tmp/bot.db");
}

#[test]
fn malformed_numbers_are_refused() {
    let float = "invalid float literal";
    for (key, value, source) in [
        ("KELLY_FRACTION", "abc", float),
        ("MAX_TRADE_SIZE_PCT", "ten", float),
        ("MAX_ACTIVE_SYMBOLS", "abc", "invalid digit found in string"),
        ("MAX_ACTIVE_SYMBOLS", "-3", "invalid digit found in string"),
        ("MIN_VOLUME_USD", "1_000", float),
        ("MIN_TRADES_FOR_LIVE", "", "cannot parse integer from empty string"),
        (
            "MIN_TRADES_FOR_LIVE",
            "99999999999999999999",
            "number too large to fit in target type",
        ),
        ("LIVE_READY_WIN_RATE", "", "cannot parse float from empty string"),
        ("LIVE_READY_PROFIT_FACTOR", "1,5", float),
        ("MAX_DAILY_LOSS_PCT", "5%", float),
        ("MAX_DRAWDOWN_PCT", "-", float),
        ("MIN_CONFIDENCE", "high", float),
        ("MIN_RISK_REWARD", "2:1", float),
    ] {
        assert_eq!(
            message(Config::from_env(&env(&[(key, value)]))),
            format!("Invalid value for '{key}': {source}")
        );
    }
    assert!(matches!(
        Config::from_env(&env(&[("STARTING_CAPITAL_USD", "lots")])),
        Err(ConfigError::Parse { var: "STARTING_CAPITAL_USD", .. })
    ));
}

#[test]
fn the_first_malformed_number_is_named() {
    let mut vars = env(&[
        ("MIN_RISK_REWARD", "x"),
        ("MAX_ACTIVE_SYMBOLS", "x"),
        ("KELLY_FRACTION", "2"),
    ]);
    assert!(matches!(
        Config::from_env(&vars),
        Err(ConfigError::Parse { var: "MAX_ACTIVE_SYMBOLS", .. })
    ));
    vars.push(("BOT_MODE".to_string(), "x".to_string()));
    assert!(matches!(
        Config::from_env(&vars),
        Err(ConfigError::Parse { var: "BOT_MODE", .. })
    ));
}

#[test]
fn missing_credentials_are_named() {
    for key in ["BINANCE_API_KEY", "BINANCE_SECRET", "TELEGRAM_TOKEN", "TELEGRAM_CHAT_ID"] {
        let vars: Vec<(String, String)> = env(&[]).into_iter().filter(|v| v.0 != key).collect();
        assert_eq!(
            message(Config::from_env(&vars)),
            format!("Missing environment variable '{key}'")
        );
    }
}

#[test]
fn an_unknown_mode_is_a_parse_error() {
    assert_eq!(
        message(Config::from_env(&env(&[("BOT_MODE", "staging")]))),
        "Invalid value for 'BOT_MODE': Validation failed: \
         BOT_MODE must be 'paper' or 'live', got 'staging'"
    );
}

#[test]
fn limits_are_validated() {
    let kelly = "Validation failed: KELLY_FRACTION must be in (0, 1]";
    assert_eq!(message(Config::from_env(&env(&[("KELLY_FRACTION", "0")]))), kelly);
    assert_eq!(message(Config::from_env(&env(&[("KELLY_FRACTION", "1.01")]))), kelly);
    assert_eq!(message(Config::from_env(&env(&[("KELLY_FRACTION", "1")]))), "accepted");
    let loss = "Validation failed: MAX_DAILY_LOSS_PCT must be in (0, 0.5]";
    assert_eq!(message(Config::from_env(&env(&[("MAX_DAILY_LOSS_PCT", "0.6")]))), loss);
    assert_eq!(message(Config::from_env(&env(&[("MAX_DAILY_LOSS_PCT", "0.5")]))), "accepted");
    let rate = "Validation failed: LIVE_READY_WIN_RATE must be in [0.5, 1.0]";
    assert_eq!(message(Config::from_env(&env(&[("LIVE_READY_WIN_RATE", "0.49")]))), rate);
    assert_eq!(message(Config::from_env(&env(&[("LIVE_READY_WIN_RATE", "0.5")]))), "accepted");
}

#[test]
fn live_mode_wants_real_credentials() {
    let mut vars = env(&[("BOT_MODE", "live")]);
    assert_eq!(message(Config::from_env(&vars)), "accepted");
    vars[1].1 = "YOUR_SECRET".to_string();
    assert_eq!(
        message(Config::from_env(&vars)),
        "Validation failed: Live mode requires real Binance credentials"
    );
    vars[4].1 = "paper".to_string();
    assert_eq!(message(Config::from_env(&vars)), "accepted");
}

#[test]
fn counts_are_read_in_full() {
    assert_eq!(read_count("0"), Ok(0));
    assert_eq!(read_count("007"), Ok(7));
    assert_eq!(read_count("+12"), Ok(12));
    assert_eq!(read_count(""), Err("cannot parse integer from empty string"));
    assert_eq!(read_count(" 1"), Err("invalid digit found in string"));
    assert_eq!(
        read_count(&format!("{}0", usize::MAX)),
        Err("number too large to fit in target type")
    );
    assert_eq!(read_count(&usize::MAX.to_string()), Ok(usize::MAX));
    for text in ["", "+", "1.5", "99999999999999999999", "99999999999999999999x", "1x999"] {
        assert_eq!(
            read_count(text).err().map(|e| e.to_string()),
            text.parse::<usize>().err().map(|e| e.to_string())
        );
    }
}
