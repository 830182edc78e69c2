use trading_bot::advisor::{build_tips, report, Tip, P};
use trading_bot::decimal::Decimal;
use trading_bot::store::{SetupStat, SymbolStat};
use trading_bot::types::Metrics;

fn dec(text: &str) -> Decimal {
    Decimal::parse(text).unwrap()
}

/// Metrics about which there is nothing to say.
fn fine() -> Metrics {
    Metrics {
        total: 60,
        wins: 33,
        losses: 27,
        win_rate: dec("0.55"),
        avg_win_usd: dec("2"),
        avg_loss_usd: dec("1.25"),
        profit_factor: dec("1.955"),
        total_pnl: dec("32.25"),
        max_drawdown: dec("0.05"),
        kelly_fraction: dec("0.065"),
        capital: dec("133.25"),
    }
}

fn tags(m: &Metrics) -> Vec<(P, &'static str)> {
    let tips = build_tips(m, &[], &[]).unwrap();
    tips.iter().filter(|t| t.tag != "UPGRADE").map(|t| (t.priority, t.tag)).collect()
}

fn setup(kind: &str, total: usize, wins: usize) -> SetupStat {
    SetupStat { kind: kind.to_string(), total, wins, total_pnl: dec("-1.5") }
}

fn symbol(name: &str, total: usize, wins: usize) -> SymbolStat {
    SymbolStat { symbol: name.to_string(), total, wins, total_pnl: dec("2.5") }
}

#[test]
fn badges() {
    assert_eq!(P::Critical.badge(), "🔴 CRITICAL");
    assert_eq!(P::Important.badge(), "🟡 IMPORTANT");
    assert_eq!(P::Info.badge(), "🟢 ENHANCE");
}

#[test]
fn four_upgrades_are_always_suggested() {
    let tips = build_tips(&fine(), &[], &[]).unwrap();
    assert_eq!(tips.len(), 4);
    assert!(tips.iter().all(|t| t.tag == "UPGRADE" && t.priority == P::Info));
    assert!(tips[0].body.starts_with("Add a 4H trend gate: "), "{}", tips[0].body);
    assert!(tips[3].body.starts_with("Add a correlation guard: "), "{}", tips[3].body);
}

#[test]
fn few_trades_are_pointed_out() {
    let mut m = fine();
    m.total = 9;
    m.win_rate = Decimal::zero();
    let tips = build_tips(&m, &[], &[]).unwrap();
    assert_eq!(
        tips[0].body,
        "Only 9 trades recorded. Need ≥50 for reliable statistics. \
         Keep paper mode running — do not switch to live yet."
    );
    assert_eq!(tags(&m), vec![(P::Critical, "DATA")]);
    m = fine();
    m.total = 29;
    let tips = build_tips(&m, &[], &[]).unwrap();
    assert_eq!(tips[0].body, "29/50 trades complete. Results will stabilise around 50.");
}

#[test]
fn each_metric_has_its_tips() {
    let mut m = fine();
    m.win_rate = dec("0.4199");
    assert_eq!(tags(&m), vec![(P::Critical, "WIN RATE")]);
    m.win_rate = dec("0.42");
    assert_eq!(tags(&m), vec![(P::Important, "WIN RATE")]);
    m.win_rate = dec("0.62");
    assert_eq!(tags(&m), vec![(P::Info, "WIN RATE")]);
    m = fine();
    m.profit_factor = dec("0.99");
    assert_eq!(tags(&m), vec![(P::Critical, "EXITS")]);
    m.profit_factor = dec("1.39");
    assert_eq!(tags(&m), vec![(P::Important, "EXITS")]);
    m = fine();
    m.avg_loss_usd = dec("1.61");
    assert_eq!(tags(&m), vec![(P::Important, "SL SIZE")]);
    m = fine();
    m.max_drawdown = dec("0.1201");
    assert_eq!(tags(&m), vec![(P::Critical, "DRAWDOWN")]);
    m.max_drawdown = dec("0.12");
    assert_eq!(tags(&m), vec![(P::Important, "DRAWDOWN")]);
    m = fine();
    m.kelly_fraction = dec("0.0199");
    assert_eq!(tags(&m), vec![(P::Important, "KELLY")]);
    m.kelly_fraction = dec("0.08");
    assert_eq!(tags(&m), vec![(P::Info, "KELLY")]);
}

#[test]
fn the_urgent_come_first() {
    let mut m = fine();
    m.total = 20;
    m.win_rate = dec("0.62");
    m.max_drawdown = dec("0.2");
    m.kelly_fraction = dec("0.01");
    assert_eq!(
        tags(&m),
        vec![
            (P::Critical, "DRAWDOWN"),
            (P::Important, "DATA"),
            (P::Important, "KELLY"),
            (P::Info, "WIN RATE"),
        ]
    );
    let tips = build_tips(&m, &[], &[]).unwrap();
    assert_eq!(
        tips[0].body,
        "Max drawdown 20.0% is dangerously high. Set MAX_DAILY_LOSS_PCT=0.03 and \
         MAX_TRADE_SIZE_PCT=0.05 in your .env immediately."
    );
}

#[test]
fn setups_are_judged_by_their_win_rate() {
    let setups = vec![
        setup("Order Block Bounce", 8, 3),
        setup("FVG Fill", 4, 0),
        setup("Liquidity Sweep", 8, 6),
        setup("RSI Divergence", 7, 7),
        setup("Volume Breakout", 10, 5),
    ];
    let tips = build_tips(&fine(), &setups, &[]).unwrap();
    assert_eq!(tips.len(), 6);
    assert_eq!(
        tips[0].body,
        "'Order Block Bounce' win rate is only 38% (3/8 trades, PnL $-1.5000). \
         Disable it: add `&& s.kind != SetupKind::OrderBlockBounce` to the \
         `signals.retain` filter in bot_signals/src/lib.rs."
    );
    assert_eq!(
        tips[1].body,
        "'Liquidity Sweep' win rate is 75% — your best setup! \
         Lower its min_confidence by 0.03 to get more of these."
    );
}

#[test]
fn symbols_are_listed_worst_first() {
    let syms = vec![
        symbol("aaausdt", 4, 1),
        symbol("bbb", 10, 0),
        symbol("ccc", 3, 0),
        symbol("ddd", 5, 1),
        symbol("eee", 4, 1),
        symbol("fff", 10, 3),
        symbol("ggg", 4, 3),
        symbol("hhh", 20, 13),
    ];
    let tips = build_tips(&fine(), &[], &syms).unwrap();
    assert_eq!(
        tips[0].body,
        "Underperformers: BBB (0%WR), DDD (20%WR), AAAUSDT (25%WR), EEE (25%WR). \
         Remove them from watchlist or add a per-symbol min-confidence override of 0.88 \
         in the scanner."
    );
    assert_eq!(
        tips[1].body,
        "Top performers: GGG (75%WR, +$2.500), HHH (65%WR, +$2.500). \
         Prioritise these — lower their min_composite_score in the scanner by 0.05."
    );
}

#[test]
fn numbers_out_of_range_stop_the_advice() {
    let mut m = fine();
    m.max_drawdown = Decimal::from_parts(79228162514264337593543950335, 0).unwrap();
    assert!(build_tips(&m, &[], &[]).is_none());
    assert!(report(&m, &[]).is_none());
}

#[test]
fn the_report_lists_at_most_twelve_tips() {
    let tip = || Tip { priority: P::Info, tag: "UPGRADE", body: "Do it.".to_string() };
    let expected = "🤖 <b>SELF-IMPROVEMENT REPORT</b>\n\
         Grade: <b>B</b> | Trades: 60 | Capital: $133.2500\n\
         ══════════════════════════════════════\n\
         🟢 ENHANCE [<b>UPGRADE</b>] #1\n  ➤ Do it.\n\n\
         🟢 ENHANCE [<b>UPGRADE</b>] #2\n  ➤ Do it.\n\
         ══════════════════════════════════════\n\
         📈 WR:55.0%  PF:1.96×  DD:5.0%  Kelly:6.5%\n\
         🔄 Next analysis in 6 hours";
    assert_eq!(report(&fine(), &[tip(), tip()]).unwrap(), expected);
    let many: Vec<Tip> = (0..13).map(|_| tip()).collect();
    let r = report(&fine(), &many).unwrap();
    assert!(r.contains("#12\n"), "{r}");
    assert!(!r.contains("#13\n"), "{r}");
}

#[test]
fn upgrades_come_last_and_few_trades_count_for_nothing() {
    let mut m = fine();
    m.total = 20;
    m.max_drawdown = dec("0.2");
    let setups = vec![setup("FVG Fill", 8, 0), setup("RSI Divergence", 4, 0)];
    let syms = vec![symbol("AAA", 3, 0), symbol("BBB", 4, 0), symbol("CCC", 9, 9)];
    let tips = build_tips(&m, &setups, &syms).unwrap();
    let bare = build_tips(&fine(), &[], &[]).unwrap();
    let n = tips.len();
    assert!(n > 4);
    for i in 0..4 {
        assert_eq!(tips[n - 4 + i].body, bare[i].body);
    }
    let fewer = build_tips(&m, &setups[..1], &syms[1..]).unwrap();
    let bodies = |t: &[Tip]| -> Vec<String> { t.iter().map(|x| x.body.clone()).collect() };
    assert_eq!(bodies(&tips), bodies(&fewer));
}
