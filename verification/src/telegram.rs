//! The messages that go to Telegram, and where they go.
//! Every message type has its own function, so that the rest of the code never
//! deals with raw HTML strings.

use vstd::prelude::*;
use vstd::string::*;

use crate::decimal::{dec, difference, o_product, one, product, quotient, try_product, Decimal};
use crate::text::{
    count_text, cut, cut_text, digits, fixed, fixed_text, hex_padded, hex_text, join, joined,
    signed_fixed, signed_text, starts_with, texts,
};
use crate::types::{
    distance_pct, grade_of, rated, CoinScore, Direction, Figures, Idea, Metrics, Outcome, Rated,
    Signal,
};

verus! {

// ── Error ─────────────────────────────────────────────────────────

#[derive(Debug)]
pub enum TelegramError {
    /// The transport's message.
    Http(String),
    Api(String),
}

impl TelegramError {
    pub open spec fn text(self) -> Seq<char> {
        match self {
            TelegramError::Http(e) => "HTTP error: "@ + e@,
            TelegramError::Api(e) => "Telegram API error: "@ + e@,
        }
    }

    pub fn to_string(&self) -> (r: String)
        ensures
            r@ == self.text(),
    {
        match self {
            TelegramError::Http(e) => {
                let mut r = "HTTP error: ".to_owned();
                r.append(e.as_str());
                r
            },
            TelegramError::Api(e) => {
                let mut r = "Telegram API error: ".to_owned();
                r.append(e.as_str());
                r
            },
        }
    }
}

// ── Messages ──────────────────────────────────────────────────────

/// A message: the form that is posted to Telegram, and where.
#[derive(Debug)]
pub struct Post {
    pub url: String,
    pub chat_id: String,
    pub text: String,
    pub parse_mode: &'static str,
}

/// What a message stands for.
pub struct Letter {
    pub url: Seq<char>,
    pub chat_id: Seq<char>,
    pub text: Seq<char>,
    pub parse_mode: Seq<char>,
}

/// What becomes of a message.
#[derive(Debug)]
pub enum Outgoing {
    Send(Post),
    /// There is nothing to send, or the client is disabled.
    Nothing,
    /// A number in the text left the decimal range.
    OutOfRange,
}

/// What stands for what becomes of a message.
pub enum Delivery {
    Send(Letter),
    Nothing,
    OutOfRange,
}

impl View for Post {
    type V = Letter;

    open spec fn view(&self) -> Letter {
        Letter {
            url: self.url@,
            chat_id: self.chat_id@,
            text: self.text@,
            parse_mode: self.parse_mode@,
        }
    }
}

impl View for Outgoing {
    type V = Delivery;

    open spec fn view(&self) -> Delivery {
        match self {
            Outgoing::Send(p) => Delivery::Send(p@),
            Outgoing::Nothing => Delivery::Nothing,
            Outgoing::OutOfRange => Delivery::OutOfRange,
        }
    }
}

// ── Signal card ───────────────────────────────────────────────────

pub open spec fn direction_label(d: Direction) -> Seq<char> {
    match d {
        Direction::Long => "📈 LONG"@,
        Direction::Short => "📉 SHORT"@,
    }
}

/// The first `n` reasons, numbered.
pub open spec fn numbered(reasons: Seq<Seq<char>>, n: int) -> Seq<Seq<char>>
    decreases n,
{
    if n <= 0 {
        seq![]
    } else {
        numbered(reasons, n - 1).push("  "@ + digits(n) + ". "@ + reasons[n - 1])
    }
}

pub open spec fn card_form(id: u128, i: Idea, reward: int, risk: int, confidence: int) -> Seq<
    char,
> {
    let n = i.reasons.len() as int;
    (if i.confidence >= dec(88, 2) {
        "🔥"@
    } else {
        "⚡"@
    }) + " <b>SIGNAL — "@ + hex_padded(id as int / 0x1000000000000000000000000, 8)
        + "</b>\n══════════════════════════\n📌 Pair:        <b>"@ + i.symbol
        + "</b>\n🎯 Direction:   "@ + direction_label(i.direction) + "\n🔎 Setup:       "@
        + i.kind.text() + "\n══════════════════════════\n💰 Entry:       <code>$"@ + fixed(
        i.entry,
        6,
    ) + "</code>\n✅ Take Profit: <code>$"@ + fixed(i.take_profit, 6) + "</code>  <i>+"@ + fixed(
        reward,
        2,
    ) + "%</i>\n❌ Stop Loss:   <code>$"@ + fixed(i.stop_loss, 6) + "</code>  <i>-"@ + fixed(
        risk,
        2,
    ) + "%</i>\n⚖️  R:R:         <b>"@ + fixed(i.risk_reward, 1)
        + "×</b>\n🎲 Confidence:  <b>"@ + fixed(confidence, 0)
        + "%</b>\n══════════════════════════\n📋 Reasons:\n"@ + joined(
        numbered(i.reasons, n),
        "\n"@,
        n,
    ) + "\n══════════════════════════\n💵 Size: <b>$"@ + cut(i.size_usd, 2) + "</b>"@
}

/// The card of a signal.  `None` where a percentage leaves the decimal range.
pub open spec fn card(id: u128, i: Idea) -> Option<Seq<char>> {
    match (
        distance_pct(i.entry, difference(i.take_profit, i.entry)),
        distance_pct(i.entry, difference(i.entry, i.stop_loss)),
        product(i.confidence, dec(100, 0)),
    ) {
        (Some(reward), Some(risk), Some(confidence)) => Some(
            card_form(id, i, reward, risk, confidence),
        ),
        _ => None,
    }
}

/// What a message that may be out of range holds.
pub open spec fn message(x: Option<String>) -> Option<Seq<char>> {
    match x {
        Some(s) => Some(s@),
        None => None,
    }
}

fn number_reasons(reasons: &Vec<String>) -> (r: Vec<String>)
    ensures
        texts(r@) == numbered(texts(reasons@), reasons@.len() as int),
        r@.len() == reasons@.len(),
{
    let ghost all = texts(reasons@);
    let mut out: Vec<String> = Vec::new();
    let mut i: usize = 0;
    assert(texts(out@) =~= seq![]);
    while i < reasons.len()
        invariant
            i <= reasons@.len(),
            all == texts(reasons@),
            texts(out@) == numbered(all, i as int),
            out@.len() == i,
        decreases reasons@.len() - i,
    {
        assert(all[i as int] == reasons@[i as int]@);
        let mut line = "  ".to_owned();
        line.append(count_text(i + 1).as_str());
        line.append(". ");
        line.append(reasons[i].as_str());
        let ghost before = out@;
        out.push(line);
        assert(texts(out@) =~= texts(before).push(line@));
        i = i + 1;
    }
    out
}

fn card_text(s: &Signal) -> (r: Option<String>)
    ensures
        message(r) == card(s.id, s.idea()),
{
    let reward = match s.reward_pct() {
        Some(x) => x,
        None => {
            return None;
        },
    };
    let risk = match s.risk_pct() {
        Some(x) => x,
        None => {
            return None;
        },
    };
    let conf = match s.confidence.checked_mul(Decimal::new(100, 0)) {
        Some(x) => x,
        None => {
            return None;
        },
    };
    let reasons = number_reasons(&s.reasons);
    let dir = match s.direction {
        Direction::Long => "📈 LONG",
        Direction::Short => "📉 SHORT",
    };
    let mut r = if Decimal::new(88, 2).at_most(s.confidence) {
        "🔥".to_owned()
    } else {
        "⚡".to_owned()
    };
    r.append(" <b>SIGNAL — ");
    r.append(hex_text(s.id / 0x1000000000000000000000000, 8).as_str());
    r.append("</b>\n══════════════════════════\n📌 Pair:        <b>");
    r.append(s.symbol.as_str());
    r.append("</b>\n🎯 Direction:   ");
    r.append(dir);
    r.append("\n🔎 Setup:       ");
    r.append(s.kind.to_string().as_str());
    r.append("\n══════════════════════════\n💰 Entry:       <code>$");
    r.append(fixed_text(s.entry.0, 6).as_str());
    r.append("</code>\n✅ Take Profit: <code>$");
    r.append(fixed_text(s.take_profit.0, 6).as_str());
    r.append("</code>  <i>+");
    r.append(fixed_text(reward, 2).as_str());
    r.append("%</i>\n❌ Stop Loss:   <code>$");
    r.append(fixed_text(s.stop_loss.0, 6).as_str());
    r.append("</code>  <i>-");
    r.append(fixed_text(risk, 2).as_str());
    r.append("%</i>\n⚖️  R:R:         <b>");
    r.append(fixed_text(s.risk_reward, 1).as_str());
    r.append("×</b>\n🎲 Confidence:  <b>");
    r.append(fixed_text(conf, 0).as_str());
    r.append("%</b>\n══════════════════════════\n📋 Reasons:\n");
    r.append(join(&reasons, "\n").as_str());
    r.append("\n══════════════════════════\n💵 Size: <b>$");
    r.append(cut_text(s.size_usd, 2).as_str());
    r.append("</b>");
    Some(r)
}

// ── Trade result ──────────────────────────────────────────────────

pub open spec fn outcome_label(o: Outcome) -> Seq<char> {
    match o {
        Outcome::Win => "✅ <b>TRADE WIN</b>\n"@,
        Outcome::Loss => "❌ <b>TRADE LOSS</b>\n"@,
        Outcome::Open => "🔄 <b>TRADE STILL OPEN</b>\n"@,
    }
}

/// The message about a trade that closed.
pub open spec fn result_form(i: Idea, outcome: Outcome, exit: int, pnl: int) -> Seq<char> {
    outcome_label(outcome) + i.symbol + " | "@ + i.direction.text() + "\nEntry: <code>$"@ + fixed(
        i.entry,
        6,
    ) + "</code> → Exit: <code>$"@ + fixed(exit, 6) + "</code>\nPnL: <b>$"@ + signed_fixed(pnl, 4)
        + "</b>"@
}

fn result_text(s: &Signal, outcome: Outcome, exit: Decimal, pnl: Decimal) -> (r: String)
    ensures
        r@ == result_form(s.idea(), outcome, exit@, pnl@),
{
    let mut r = match outcome {
        Outcome::Win => "✅ <b>TRADE WIN</b>\n".to_owned(),
        Outcome::Loss => "❌ <b>TRADE LOSS</b>\n".to_owned(),
        Outcome::Open => "🔄 <b>TRADE STILL OPEN</b>\n".to_owned(),
    };
    r.append(s.symbol.as_str());
    r.append(" | ");
    r.append(s.direction.to_string().as_str());
    r.append("\nEntry: <code>$");
    r.append(fixed_text(s.entry.0, 6).as_str());
    r.append("</code> → Exit: <code>$");
    r.append(fixed_text(exit, 6).as_str());
    r.append("</code>\nPnL: <b>$");
    r.append(signed_text(pnl, 4).as_str());
    r.append("</b>");
    r
}

// ── Hourly dashboard ──────────────────────────────────────────────

pub open spec fn dashboard_form(m: Figures, wr: int, lr: int, dd: int, kelly: int) -> Seq<char> {
    "📊 <b>PERFORMANCE DASHBOARD</b>\n══════════════════════════\n💰 Capital:      <b>$"@
        + fixed(m.capital, 4) + "</b>\n📈 Total PnL:    <b>$"@ + signed_fixed(m.total_pnl, 4)
        + "</b>\n══════════════════════════\n🎯 Trades:       <b>"@ + digits(m.total)
        + "</b>\n✅ Wins:         "@ + digits(m.wins) + " ("@ + fixed(wr, 1)
        + "%)\n❌ Losses:       "@ + digits(m.losses) + " ("@ + fixed(lr, 1)
        + "%)\n══════════════════════════\n💵 Avg Win:      +$"@ + fixed(m.avg_win_usd, 4)
        + "\n💸 Avg Loss:     −$"@ + fixed(m.avg_loss_usd, 4) + "\n⚖️  Profit Factor: <b>"@
        + fixed(m.profit_factor, 2) + "×</b>\n📉 Max Drawdown: "@ + fixed(dd, 1)
        + "%\n══════════════════════════\n🔑 Kelly f:      "@ + fixed(kelly, 1)
        + "%\n🎓 Grade:        <b>"@ + grade_of(m.win_rate) + "</b>"@
}

/// The dashboard of some metrics.  `None` where a percentage leaves the
/// decimal range.
pub open spec fn dashboard_of(m: Figures) -> Option<Seq<char>> {
    match (
        product(m.win_rate, dec(100, 0)),
        o_product(difference(one(), m.win_rate), Some(dec(100, 0))),
        product(m.max_drawdown, dec(100, 0)),
        product(m.kelly_fraction, dec(100, 0)),
    ) {
        (Some(wr), Some(lr), Some(dd), Some(kelly)) => Some(dashboard_form(m, wr, lr, dd, kelly)),
        _ => None,
    }
}

fn dashboard_text(m: &Metrics) -> (r: Option<String>)
    ensures
        message(r) == dashboard_of(m@),
{
    let hundred = Decimal::new(100, 0);
    match (
        m.win_rate.checked_mul(hundred),
        try_product(Decimal::one().checked_sub(m.win_rate), Some(hundred)),
        m.max_drawdown.checked_mul(hundred),
        m.kelly_fraction.checked_mul(hundred),
    ) {
        (Some(wr), Some(lr), Some(dd), Some(kelly)) => {
            let mut r =
                "📊 <b>PERFORMANCE DASHBOARD</b>\n══════════════════════════\n💰 Capital:      <b>$".to_owned();
            r.append(fixed_text(m.capital, 4).as_str());
            r.append("</b>\n📈 Total PnL:    <b>$");
            r.append(signed_text(m.total_pnl, 4).as_str());
            r.append("</b>\n══════════════════════════\n🎯 Trades:       <b>");
            r.append(count_text(m.total).as_str());
            r.append("</b>\n✅ Wins:         ");
            r.append(count_text(m.wins).as_str());
            r.append(" (");
            r.append(fixed_text(wr, 1).as_str());
            r.append("%)\n❌ Losses:       ");
            r.append(count_text(m.losses).as_str());
            r.append(" (");
            r.append(fixed_text(lr, 1).as_str());
            r.append("%)\n══════════════════════════\n💵 Avg Win:      +$");
            r.append(fixed_text(m.avg_win_usd, 4).as_str());
            r.append("\n💸 Avg Loss:     −$");
            r.append(fixed_text(m.avg_loss_usd, 4).as_str());
            r.append("\n⚖️  Profit Factor: <b>");
            r.append(fixed_text(m.profit_factor, 2).as_str());
            r.append("×</b>\n📉 Max Drawdown: ");
            r.append(fixed_text(dd, 1).as_str());
            r.append("%\n══════════════════════════\n🔑 Kelly f:      ");
            r.append(fixed_text(kelly, 1).as_str());
            r.append("%\n🎓 Grade:        <b>");
            r.append(m.grade());
            r.append("</b>");
            Some(r)
        },
        _ => None,
    }
}

// ── Scan report ───────────────────────────────────────────────────

pub open spec fn coin_form(rank: int, c: Rated, millions: int, smc: int) -> Seq<char> {
    digits(rank) + ". "@ + c.symbol + "  score:"@ + fixed(c.composite, 2) + "  vol:$"@ + fixed(
        millions,
        0,
    ) + "M  chg:"@ + signed_fixed(c.change_24h, 1) + "%  smc:"@ + fixed(smc, 0) + "%  "@ + (
    if c.trend_bullish {
        "↑"@
    } else {
        "↓"@
    })
}

/// The row of the coin at `rank`.
pub open spec fn coin_row(rank: int, c: Rated) -> Option<Seq<char>> {
    match (quotient(c.volume_24h, dec(1000000, 0)), product(c.smc_score, dec(100, 0))) {
        (Some(millions), Some(smc)) => Some(coin_form(rank, c, millions, smc)),
        _ => None,
    }
}

/// The rows of the first `n` coins.
pub open spec fn coin_rows(coins: Seq<Rated>, n: int) -> Option<Seq<Seq<char>>>
    decreases n,
{
    if n <= 0 {
        Some(seq![])
    } else {
        match (coin_rows(coins, n - 1), coin_row(n, coins[n - 1])) {
            (Some(s), Some(row)) => Some(s.push(row)),
            _ => None,
        }
    }
}

/// The report of a scan.  `None` where a number leaves the decimal range.
pub open spec fn report_of(coins: Seq<Rated>) -> Option<Seq<char>> {
    let n = coins.len() as int;
    match coin_rows(coins, n) {
        Some(rows) => Some(
            "🔭 <b>WATCHLIST SCAN — TOP "@ + digits(n) + "</b>\n<pre>"@ + joined(rows, "\n"@, n)
                + "</pre>"@,
        ),
        None => None,
    }
}

fn coin_line(rank: usize, c: &CoinScore) -> (r: Option<String>)
    ensures
        message(r) == coin_row(rank as int, c@),
{
    match (
        c.volume_24h.checked_div(Decimal::new(1000000, 0)),
        c.smc_score.checked_mul(Decimal::new(100, 0)),
    ) {
        (Some(millions), Some(smc)) => {
            let mut r = count_text(rank);
            r.append(". ");
            r.append(c.symbol.as_str());
            r.append("  score:");
            r.append(fixed_text(c.composite, 2).as_str());
            r.append("  vol:$");
            r.append(fixed_text(millions, 0).as_str());
            r.append("M  chg:");
            r.append(signed_text(c.change_24h, 1).as_str());
            r.append("%  smc:");
            r.append(fixed_text(smc, 0).as_str());
            r.append("%  ");
            r.append(
                if c.trend_bullish {
                    "↑"
                } else {
                    "↓"
                },
            );
            Some(r)
        },
        _ => None,
    }
}

proof fn lemma_rows_fail(coins: Seq<Rated>, i: int, j: int)
    requires
        i <= j,
        coin_rows(coins, i) is None,
    ensures
        coin_rows(coins, j) is None,
    decreases j - i,
{
    if i < j {
        lemma_rows_fail(coins, i, j - 1);
    }
}

fn scan_text(coins: &[CoinScore]) -> (r: Option<String>)
    ensures
        message(r) == report_of(rated(coins@)),
{
    let ghost all = rated(coins@);
    let n = coins.len();
    let mut rows: Vec<String> = Vec::new();
    let mut i: usize = 0;
    assert(texts(rows@) =~= seq![]);
    while i < n
        invariant
            i <= n == coins@.len(),
            all == rated(coins@),
            rows@.len() == i,
            coin_rows(all, i as int) == Some(texts(rows@)),
        decreases n - i,
    {
        assert(all[i as int] == coins@[i as int]@);
        match coin_line(i + 1, &coins[i]) {
            Some(line) => {
                let ghost before = rows@;
                rows.push(line);
                assert(texts(rows@) =~= texts(before).push(line@));
            },
            None => {
                proof {
                    lemma_rows_fail(all, i + 1, n as int);
                }
                return None;
            },
        }
        i = i + 1;
    }
    let mut r = "🔭 <b>WATCHLIST SCAN — TOP ".to_owned();
    r.append(count_text(n).as_str());
    r.append("</b>\n<pre>");
    r.append(join(&rows, "\n").as_str());
    r.append("</pre>");
    Some(r)
}

// ── Alerts ────────────────────────────────────────────────────────

/// The alert that the bot is ready to go live.  `None` where the win rate in
/// percent leaves the decimal range.
pub open spec fn live_ready_of(m: Figures) -> Option<Seq<char>> {
    match product(m.win_rate, dec(100, 0)) {
        Some(wr) => Some(
            "🎓 <b>TRAINING COMPLETE — BOT IS LIVE-READY!</b>\n══════════════════════════════════\nAfter <b>"@
                + digits(m.total) + "</b> paper trades:\n\n✅ Win Rate:      <b>"@ + fixed(wr, 1)
                + "%</b>\n✅ Profit Factor: <b>"@ + fixed(m.profit_factor, 2)
                + "×</b>\n💰 Paper PnL:    <b>$"@ + signed_fixed(m.total_pnl, 4)
                + "</b>\n💵 Capital:      <b>$"@ + fixed(m.capital, 4)
                + "</b>\n══════════════════════════════════\n🚀 Set <code>BOT_MODE=live</code> in .env to go live.\n⚠️  Only risk what you can afford to lose."@,
        ),
        None => None,
    }
}

fn live_ready_text(m: &Metrics) -> (r: Option<String>)
    ensures
        message(r) == live_ready_of(m@),
{
    match m.win_rate.checked_mul(Decimal::new(100, 0)) {
        Some(wr) => {
            let mut r =
                "🎓 <b>TRAINING COMPLETE — BOT IS LIVE-READY!</b>\n══════════════════════════════════\nAfter <b>".to_owned();
            r.append(count_text(m.total).as_str());
            r.append("</b> paper trades:\n\n✅ Win Rate:      <b>");
            r.append(fixed_text(wr, 1).as_str());
            r.append("%</b>\n✅ Profit Factor: <b>");
            r.append(fixed_text(m.profit_factor, 2).as_str());
            r.append("×</b>\n💰 Paper PnL:    <b>$");
            r.append(signed_text(m.total_pnl, 4).as_str());
            r.append("</b>\n💵 Capital:      <b>$");
            r.append(fixed_text(m.capital, 4).as_str());
            r.append(
                "</b>\n══════════════════════════════════\n🚀 Set <code>BOT_MODE=live</code> in .env to go live.\n⚠️  Only risk what you can afford to lose.",
            );
            Some(r)
        },
        None => None,
    }
}

/// The alert that trading is paused.
pub open spec fn halt_form(reason: Seq<char>) -> Seq<char> {
    "⚠️ <b>RISK HALT</b>\n"@ + reason + "\nTrading paused."@
}

fn halt_text(reason: &str) -> (r: String)
    ensures
        r@ == halt_form(reason@),
{
    let mut r = "⚠️ <b>RISK HALT</b>\n".to_owned();
    r.append(reason);
    r.append("\nTrading paused.");
    r
}

/// The message at startup.
pub open spec fn startup_form(mode: Seq<char>, capital: int, symbols: int) -> Seq<char> {
    "🤖 <b>PRO TRADING BOT v3.0 STARTED</b>\nMode:    <b>"@ + mode + "</b>\nCapital: <b>$"@
        + fixed(capital, 4) + "</b>\nWatching up to <b>"@ + digits(symbols) + "</b> coins"@
}

fn startup_text(mode: &str, capital: Decimal, symbols: usize) -> (r: String)
    ensures
        r@ == startup_form(mode@, capital@, symbols as int),
{
    let mut r = "🤖 <b>PRO TRADING BOT v3.0 STARTED</b>\nMode:    <b>".to_owned();
    r.append(mode);
    r.append("</b>\nCapital: <b>$");
    r.append(fixed_text(capital, 4).as_str());
    r.append("</b>\nWatching up to <b>");
    r.append(count_text(symbols).as_str());
    r.append("</b> coins");
    r
}

// ── Client ────────────────────────────────────────────────────────

/// A typed client: every message has its own method.
#[derive(Debug)]
pub struct TelegramClient {
    pub token: String,
    pub chat_id: String,
    pub enabled: bool,
}

impl TelegramClient {
    /// A text on its way, unless the client is disabled.
    pub open spec fn letter(self, text: Seq<char>) -> Delivery {
        if self.enabled {
            Delivery::Send(
                Letter {
                    url: "https://api.telegram.org/bot"@ + self.token@ + "/sendMessage"@,
                    chat_id: self.chat_id@,
                    text,
                    parse_mode: "HTML"@,
                },
            )
        } else {
            Delivery::Nothing
        }
    }

    /// A text that may be out of range, on its way.
    pub open spec fn delivery(self, text: Option<Seq<char>>) -> Delivery {
        match text {
            Some(text) => self.letter(text),
            None => Delivery::OutOfRange,
        }
    }

    /// A client whose token is empty or a placeholder sends nothing.
    pub fn new(token: &str, chat_id: &str) -> (r: TelegramClient)
        ensures
            r.token@ == token@,
            r.chat_id@ == chat_id@,
            r.enabled == (!"YOUR"@.is_prefix_of(token@) && token@.len() > 0),
    {
        TelegramClient {
            token: token.to_owned(),
            chat_id: chat_id.to_owned(),
            enabled: !starts_with(token, "YOUR") && !token.is_empty(),
        }
    }

    pub fn send(&self, html: &str) -> (r: Outgoing)
        ensures
            r@ == self.letter(html@),
    {
        if !self.enabled {
            return Outgoing::Nothing;
        }
        let mut url = "https://api.telegram.org/bot".to_owned();
        url.append(self.token.as_str());
        url.append("/sendMessage");
        Outgoing::Send(
            Post {
                url,
                chat_id: self.chat_id.clone(),
                text: html.to_owned(),
                parse_mode: "HTML",
            },
        )
    }

    fn send_written(&self, html: Option<String>) -> (r: Outgoing)
        ensures
            r@ == self.delivery(message(html)),
    {
        match html {
            Some(html) => self.send(html.as_str()),
            None => Outgoing::OutOfRange,
        }
    }

    /// The card of a signal: entry, targets, reasons and size.
    pub fn signal_card(&self, s: &Signal) -> (r: Outgoing)
        ensures
            r@ == self.delivery(card(s.id, s.idea())),
    {
        self.send_written(card_text(s))
    }

    /// The result of a trade.
    pub fn trade_result(&self, s: &Signal, outcome: Outcome, exit: Decimal, pnl: Decimal) -> (r:
        Outgoing)
        ensures
            r@ == self.letter(result_form(s.idea(), outcome, exit@, pnl@)),
    {
        self.send(result_text(s, outcome, exit, pnl).as_str())
    }

    /// The hourly dashboard.
    pub fn dashboard(&self, m: &Metrics) -> (r: Outgoing)
        ensures
            r@ == self.delivery(dashboard_of(m@)),
    {
        self.send_written(dashboard_text(m))
    }

    /// The report of a scan, if any coin was found.
    pub fn scan_report(&self, coins: &[CoinScore]) -> (r: Outgoing)
        ensures
            r@ == (if coins@.len() == 0 {
                Delivery::Nothing
            } else {
                self.delivery(report_of(rated(coins@)))
            }),
    {
        if coins.len() == 0 {
            return Outgoing::Nothing;
        }
        self.send_written(scan_text(coins))
    }

    /// The alert that the bot is ready to go live.
    pub fn live_ready(&self, m: &Metrics) -> (r: Outgoing)
        ensures
            r@ == self.delivery(live_ready_of(m@)),
    {
        self.send_written(live_ready_text(m))
    }

    /// The alert that trading is paused.
    pub fn risk_halt(&self, reason: &str) -> (r: Outgoing)
        ensures
            r@ == self.letter(halt_form(reason@)),
    {
        self.send(halt_text(reason).as_str())
    }

    /// The message at startup.
    pub fn startup(&self, mode: &str, capital: Decimal, symbols: usize) -> (r: Outgoing)
        ensures
            r@ == self.letter(startup_form(mode@, capital@, symbols as int)),
    {
        self.send(startup_text(mode, capital, symbols).as_str())
    }
}

} // verus!
