use trading_bot::decimal::Decimal;
use trading_bot::telegram::{Outgoing, Post, TelegramClient, TelegramError};
use trading_bot::types::{
    CoinScore, Direction, Metrics, Outcome, Price, SetupKind, Signal, Symbol,
};

fn dec(text: &str) -> Decimal {
    Decimal::parse(text).unwrap()
}

fn signal() -> Signal {
    Signal {
        id: 0x0123456789ab4def8123456789abcdef,
        symbol: Symbol::new("btcusdt"),
        direction: Direction::Long,
        kind: SetupKind::OrderBlockBounce,
        entry: Price::new(dec("200")),
        take_profit: Price::new(dec("230.1234567")),
        stop_loss: Price::new(dec("190")),
        risk_reward: dec("3.01"),
        confidence: dec("0.88"),
        size_usd: dec("5.999"),
        reasons: vec!["first".to_string(), "second".to_string()],
        created_at: 0,
    }
}

fn metrics() -> Metrics {
    Metrics {
        total: 60,
        wins: 33,
        losses: 27,
        win_rate: dec("0.55"),
        avg_win_usd: dec("2"),
        avg_loss_usd: dec("1.25"),
        profit_factor: dec("1.955"),
        total_pnl: dec("32.25"),
        max_drawdown: dec("0.071"),
        kelly_fraction: dec("0.065"),
        capital: dec("133.25"),
    }
}

fn client() -> TelegramClient {
    TelegramClient::new("12:ab", "-77")
}

/// The text of a message that is sent, `None` of one that is out of range.
fn text(o: Outgoing) -> Option<String> {
    match o {
        Outgoing::Send(Post { url, chat_id, text, parse_mode }) => {
            assert_eq!(url, "https://api.telegram.org/bot12:ab/sendMessage");
            assert_eq!(chat_id, "-77");
            assert_eq!(parse_mode, "HTML");
            Some(text)
        }
        Outgoing::Nothing => panic!("nothing sent"),
        Outgoing::OutOfRange => None,
    }
}

#[test]
fn placeholders_disable_the_client() {
    for token in ["", "YOUR", "YOUR_TOKEN"] {
        let c = TelegramClient::new(token, "1");
        assert!(!c.enabled);
        assert!(matches!(c.send("x"), Outgoing::Nothing));
        assert!(matches!(c.signal_card(&signal()), Outgoing::Nothing));
        assert!(matches!(c.risk_halt("x"), Outgoing::Nothing));
    }
    assert!(client().enabled);
    assert_eq!(text(client().send("<b>x</b>")).unwrap(), "<b>x</b>");
}

#[test]
fn telegram_errors_are_written_out() {
    assert_eq!(TelegramError::Http("x".to_string()).to_string(), "HTTP error: x");
    assert_eq!(TelegramError::Api("x".to_string()).to_string(), "Telegram API error: x");
}

#[test]
fn a_signal_card() {
    let expected = "🔥 <b>SIGNAL — 01234567</b>\n\
         ══════════════════════════\n\
         📌 Pair:        <b>BTCUSDT</b>\n\
         🎯 Direction:   📈 LONG\n\
         🔎 Setup:       Order Block Bounce\n\
         ══════════════════════════\n\
         💰 Entry:       <code>$200.000000</code>\n\
         ✅ Take Profit: <code>$230.123457</code>  <i>+15.06%</i>\n\
         ❌ Stop Loss:   <code>$190.000000</code>  <i>-5.00%</i>\n\
         ⚖️  R:R:         <b>3.0×</b>\n\
         🎲 Confidence:  <b>88%</b>\n\
         ══════════════════════════\n\
         📋 Reasons:\n  1. first\n  2. second\n\
         ══════════════════════════\n\
         💵 Size: <b>$5.99</b>";
    assert_eq!(text(client().signal_card(&signal())).unwrap(), expected);
    let mut s = signal();
    s.confidence = dec("0.879");
    s.direction = Direction::Short;
    let card = text(client().signal_card(&s)).unwrap();
    assert!(card.starts_with("⚡ <b>SIGNAL"), "{card}");
    assert!(card.contains("📉 SHORT"), "{card}");
    s.confidence = Decimal::from_parts(79228162514264337593543950335, 0).unwrap();
    assert!(text(client().signal_card(&s)).is_none());
}

#[test]
fn a_trade_result() {
    assert_eq!(
        text(client().trade_result(&signal(), Outcome::Loss, dec("190"), dec("-0.3"))).unwrap(),
        "❌ <b>TRADE LOSS</b>\nBTCUSDT | LONG\n\
         Entry: <code>$200.000000</code> → Exit: <code>$190.000000</code>\n\
         PnL: <b>$-0.3000</b>"
    );
    let won = text(client().trade_result(&signal(), Outcome::Win, dec("230"), dec("0.9"))).unwrap();
    assert!(won.starts_with("✅ <b>TRADE WIN</b>"), "{won}");
    assert!(won.ends_with("PnL: <b>$+0.9000</b>"), "{won}");
    let open = text(client().trade_result(&signal(), Outcome::Open, dec("230"), dec("0.9"))).unwrap();
    assert!(open.starts_with("🔄 <b>TRADE STILL OPEN</b>"), "{open}");
}

#[test]
fn the_dashboard() {
    let expected = "📊 <b>PERFORMANCE DASHBOARD</b>\n\
         ══════════════════════════\n\
         💰 Capital:      <b>$133.2500</b>\n\
         📈 Total PnL:    <b>$+32.2500</b>\n\
         ══════════════════════════\n\
         🎯 Trades:       <b>60</b>\n\
         ✅ Wins:         33 (55.0%)\n\
         ❌ Losses:       27 (45.0%)\n\
         ══════════════════════════\n\
         💵 Avg Win:      +$2.0000\n\
         💸 Avg Loss:     −$1.2500\n\
         ⚖️  Profit Factor: <b>1.96×</b>\n\
         📉 Max Drawdown: 7.1%\n\
         ══════════════════════════\n\
         🔑 Kelly f:      6.5%\n\
         🎓 Grade:        <b>B</b>";
    assert_eq!(text(client().dashboard(&metrics())).unwrap(), expected);
}

#[test]
fn the_live_ready_alert() {
    let expected = "🎓 <b>TRAINING COMPLETE — BOT IS LIVE-READY!</b>\n\
         ══════════════════════════════════\n\
         After <b>60</b> paper trades:\n\n\
         ✅ Win Rate:      <b>55.0%</b>\n\
         ✅ Profit Factor: <b>1.96×</b>\n\
         💰 Paper PnL:    <b>$+32.2500</b>\n\
         💵 Capital:      <b>$133.2500</b>\n\
         ══════════════════════════════════\n\
         🚀 Set <code>BOT_MODE=live</code> in .env to go live.\n\
         ⚠️  Only risk what you can afford to lose.";
    assert_eq!(text(client().live_ready(&metrics())).unwrap(), expected);
    let mut m = metrics();
    m.win_rate = Decimal::from_parts(79228162514264337593543950335, 0).unwrap();
    assert!(text(client().live_ready(&m)).is_none());
    assert!(text(client().dashboard(&m)).is_none());
}

#[test]
fn the_scan_report() {
    let coin = |name: &str, up: bool| CoinScore {
        symbol: Symbol::new(name),
        composite: dec("0.876"),
        volume_24h: dec("1234567890"),
        change_24h: dec("-2.35"),
        volatility: dec("1"),
        smc_score: dec("0.45"),
        trend_bullish: up,
    };
    assert!(matches!(client().scan_report(&[]), Outgoing::Nothing));
    assert_eq!(
        text(client().scan_report(&[coin("BTCUSDT", true), coin("ETHUSDT", false)])),
        Some(
            "🔭 <b>WATCHLIST SCAN — TOP 2</b>\n<pre>\
             1. BTCUSDT  score:0.88  vol:$1235M  chg:-2.4%  smc:45%  ↑\n\
             2. ETHUSDT  score:0.88  vol:$1235M  chg:-2.4%  smc:45%  ↓</pre>"
                .to_string()
        )
    );
    let mut c = coin("BTCUSDT", true);
    c.smc_score = Decimal::from_parts(79228162514264337593543950335, 0).unwrap();
    assert_eq!(text(client().scan_report(&[c])), None);
}

#[test]
fn short_messages() {
    assert_eq!(
        text(client().risk_halt("Circuit breaker")).unwrap(),
        "⚠️ <b>RISK HALT</b>\nCircuit breaker\nTrading paused."
    );
    assert_eq!(
        text(client().startup("paper", dec("1"), 15)).unwrap(),
        "🤖 <b>PRO TRADING BOT v3.0 STARTED</b>\nMode:    <b>paper</b>\n\
         Capital: <b>$1.0000</b>\nWatching up to <b>15</b> coins"
    );
}
