use trading_bot::config::{Config, Mode};
use trading_bot::decimal::Decimal;
use trading_bot::orchestrator::{
    engine_config, first_pause, live_order, next_pause, places_orders, signal_kelly,
    until_midnight, Action, Event, Round, Stage, Task, COOL_DOWN_SECS, DAY_MS,
};
use trading_bot::types::{Direction, Metrics, OrderSide, Price, SetupKind, Signal, Symbol};

fn dec(text: &str) -> Decimal {
    Decimal::parse(text).unwrap()
}

#[test]
fn a_refused_round_halts() {
    let mut r = Round::new(3, true);
    assert_eq!(r.step(Event::Refused), Action::Halt(COOL_DOWN_SECS));
    assert_eq!(COOL_DOWN_SECS, 300);
    assert_eq!(r.stage, Stage::Over);
}

#[test]
fn an_empty_watchlist_is_skipped() {
    let mut r = Round::new(0, true);
    assert_eq!(r.step(Event::Permitted), Action::Skip);
    let mut r = Round::new(2, true);
    assert_eq!(r.step(Event::Permitted), Action::FetchPrices);
    assert_eq!(r.step(Event::PricesFailed), Action::Skip);
    assert_eq!(r.stage, Stage::Over);
}

#[test]
fn a_paper_round_places_no_orders() {
    let mut r = Round::new(2, false);
    assert_eq!(r.step(Event::Permitted), Action::FetchPrices);
    assert_eq!(r.step(Event::Priced), Action::EvaluateOpen);
    assert_eq!(r.step(Event::Evaluated), Action::FetchCandles(0));
    assert_eq!(r.step(Event::Analysed(2)), Action::SendCard { symbol: 0, signal: 0 });
    assert_eq!(r.step(Event::CardSent), Action::Record { symbol: 0, signal: 0 });
    assert_eq!(r.step(Event::Recorded), Action::SendCard { symbol: 0, signal: 1 });
    assert_eq!(r.step(Event::CardSent), Action::Record { symbol: 0, signal: 1 });
    assert_eq!(r.step(Event::Recorded), Action::FetchCandles(1));
    assert_eq!(r.step(Event::Analysed(0)), Action::Finish);
    assert_eq!(r.stage, Stage::Over);
}

#[test]
fn a_live_round_orders_what_it_recorded() {
    let mut r = Round::new(2, true);
    r.step(Event::Permitted);
    r.step(Event::Priced);
    r.step(Event::Evaluated);
    assert_eq!(r.step(Event::CandlesFailed), Action::FetchCandles(1));
    r.step(Event::Analysed(2));
    r.step(Event::CardSent);
    assert_eq!(r.step(Event::RecordFailed), Action::SendCard { symbol: 1, signal: 1 });
    r.step(Event::CardSent);
    assert_eq!(r.step(Event::Recorded), Action::PlaceOrder { symbol: 1, signal: 1 });
    assert_eq!(r.step(Event::Ordered), Action::Finish);
    assert_eq!(r.step(Event::Permitted), Action::Skip);
}

#[test]
fn orders_follow_the_direction() {
    let mut s = Signal {
        id: 1,
        symbol: Symbol::new("btcusdt"),
        direction: Direction::Long,
        kind: SetupKind::RsiDivergence,
        entry: Price::new(dec("1")),
        take_profit: Price::new(dec("1")),
        stop_loss: Price::new(dec("1")),
        risk_reward: dec("2"),
        confidence: dec("0.8"),
        size_usd: dec("1"),
        reasons: vec![],
        created_at: 0,
    };
    let o = live_order(&s, dec("25"));
    assert_eq!(o.symbol.as_str(), "BTCUSDT");
    assert_eq!((o.side, o.quote_qty), (OrderSide::Buy, dec("25")));
    s.direction = Direction::Short;
    assert_eq!(live_order(&s, dec("25")).side, OrderSide::Sell);
    assert!(places_orders(Mode::Live));
    assert!(!places_orders(Mode::Paper));
}

#[test]
fn the_engine_follows_the_configuration() {
    let mut env: Vec<(String, String)> = Vec::new();
    for k in ["BINANCE_API_KEY", "BINANCE_SECRET", "TELEGRAM_TOKEN", "TELEGRAM_CHAT_ID"] {
        env.push((k.to_string(), "x".to_string()));
    }
    env.push(("MIN_CONFIDENCE".to_string(), "0.8".to_string()));
    let e = engine_config(&Config::from_env(&env).unwrap());
    assert_eq!((e.min_confidence, e.min_risk_reward), (dec("0.8"), dec("2")));
    assert_eq!(e.max_signals, 2);
    let mut m = Metrics::default();
    assert_eq!(signal_kelly(&m), dec("0.02"));
    m.kelly_fraction = dec("0.05");
    assert_eq!(signal_kelly(&m), dec("0.05"));
}

#[test]
fn the_day_ends_at_midnight_utc() {
    // 2023-11-14 22:13:20.5 UTC
    assert_eq!(until_midnight(1700000000500), 6399500);
    assert_eq!(until_midnight(0), DAY_MS);
    assert_eq!(until_midnight(DAY_MS - 1), 1);
}

#[test]
fn background_tasks_have_their_hours() {
    assert_eq!((first_pause(Task::Dashboard, 5), next_pause(Task::Dashboard, 5)), (0, 3600000));
    assert_eq!((first_pause(Task::Advisor, 5), next_pause(Task::Advisor, 5)), (1800000, 21600000));
    assert_eq!((first_pause(Task::Rescan, 5), next_pause(Task::Rescan, 5)), (14400000, 14400000));
    assert_eq!(first_pause(Task::DailyReset, 5), DAY_MS - 5);
    assert_eq!(next_pause(Task::DailyReset, 5), DAY_MS - 5);
}

#[test]
fn resets_come_at_every_midnight() {
    // Started at 15:00, and each reset done a little late.
    let start = 20000 * DAY_MS + 15 * 3_600_000;
    let mut at = start + first_pause(Task::DailyReset, start);
    for day in 1..5 {
        assert_eq!(at, (20000 + day) * DAY_MS);
        let done = at + 1234 * day;
        at = done + next_pause(Task::DailyReset, done);
    }
}
