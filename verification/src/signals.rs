//! Stateless signal-generation engine.  Given a row of candles and a
//! configuration, [`evaluate`] returns zero or more signals.  What they say
//! depends on the arguments alone; only their ids and times do not.

use vstd::prelude::*;
use vstd::string::*;

use crate::decimal::{
    dec, difference, lemma_dec_monotone, min_of, o_difference, o_magnitude, o_max, o_min,
    o_quotient, o_sum, one, product, quotient, representable, sign_is_kept, steps_keep_their_side,
    sum, try_abs, try_difference, try_larger, try_quotient, try_smaller, try_sum, val, Decimal,
};
use crate::indicators::{
    atr, atr_is_not_negative, atr_of, closes, closes_of, divergence_of, ema_last, ema_of, last_of,
    macd, macd_of, outcome, rsi, rsi_divergence, rsi_of, total_volume, values, vwap, vwap_of,
    IndicatorError, Macd, MacdResult,
};
use crate::ranking::{outranks, rank, ranked, ranking, ranking_is_stable_and_complete};
use crate::smc::{
    analyse, character_change, context, liquidity_sweep, order_blocks, structure_break, Block,
    Context, OrderBlock, SmcContext,
};
use crate::stamps::{fresh_id, now_millis};
use crate::text::{add_text, copy_texts, fixed, fixed_text, labelled, texts, unicode_upper};
use crate::types::{bars, Bar, Candle, Direction, Idea, Price, SetupKind, Signal, Symbol};

verus! {

// ── Configuration for the engine ──────────────────────────────────

#[derive(Debug, Clone, Copy)]
pub struct EngineConfig {
    pub min_confidence: Decimal,
    pub min_risk_reward: Decimal,
    /// Per call.
    pub max_signals: usize,
}

impl Default for EngineConfig {
    fn default() -> (r: EngineConfig)
        ensures
            r.min_confidence@ == dec(76, 2),
            r.min_risk_reward@ == dec(20, 1),
            r.max_signals == 2,
    {
        EngineConfig {
            min_confidence: Decimal::new(76, 2),
            min_risk_reward: Decimal::new(20, 1),
            max_signals: 2,
        }
    }
}

// ── Readings ──────────────────────────────────────────────────────

/// What the setups look at.
pub struct Readings {
    pub price: int,
    pub size: int,
    pub rsi: int,
    pub macd: Option<Macd>,
    pub atr: int,
    pub vwap: int,
    pub ema20: int,
    pub ema50: int,
    pub divergence: Option<Direction>,
    pub smc: Context,
}

struct Market {
    price: Decimal,
    size: Decimal,
    rsi: Decimal,
    macd: Option<MacdResult>,
    atr: Decimal,
    vwap: Decimal,
    ema20: Decimal,
    ema50: Decimal,
    divergence: Option<Direction>,
    smc: SmcContext,
}

impl Market {
    spec fn readings(self) -> Readings {
        Readings {
            price: self.price@,
            size: self.size@,
            rsi: self.rsi@,
            macd: match self.macd {
                Some(m) => Some(m@),
                None => None,
            },
            atr: self.atr@,
            vwap: self.vwap@,
            ema20: self.ema20@,
            ema50: self.ema50@,
            divergence: self.divergence,
            smc: self.smc@,
        }
    }
}

/// An indicator's number, or `default` where it has none.  `None` where it
/// left the decimal range.
pub open spec fn or_default(r: Result<int, IndicatorError>, default: Option<int>) -> Option<int> {
    match r {
        Ok(x) => Some(x),
        Err(IndicatorError::OutOfRange) => None,
        Err(_) => default,
    }
}

pub fn number_or(r: Result<Decimal, IndicatorError>, default: Option<Decimal>) -> (x: Option<Decimal>)
    ensures
        val(x) == or_default(outcome(r), val(default)),
{
    match r {
        Ok(x) => Some(x),
        Err(IndicatorError::OutOfRange) => None,
        Err(_) => default,
    }
}

/// The amount to trade: `capital * kelly_f`, at least one and then at most a
/// tenth of the capital.
pub open spec fn trade_size(capital: int, kelly_f: int) -> Option<int> {
    o_min(o_max(product(capital, kelly_f), Some(one())), product(capital, dec(10, 2)))
}

/// The readings of a row of at least 55 candles.
pub open spec fn readings(b: Seq<Bar>, capital: int, kelly_f: int) -> Option<Readings> {
    let c = closes_of(b);
    let price = c[c.len() - 1];
    let macd = match macd_of(c) {
        Ok(m) => Some(Some(m)),
        Err(IndicatorError::OutOfRange) => None,
        Err(_) => Some(None),
    };
    match (
        trade_size(capital, kelly_f),
        or_default(rsi_of(c, 14), Some(dec(50, 0))),
        macd,
        or_default(atr_of(b, 14), product(price, dec(1, 2))),
        or_default(vwap_of(b), Some(price)),
        or_default(last_of(ema_of(c, 20)), Some(price)),
        or_default(last_of(ema_of(c, 50)), Some(price)),
        context(b, price),
    ) {
        (
            Some(size),
            Some(rsi),
            Some(macd),
            Some(atr),
            Some(vwap),
            Some(ema20),
            Some(ema50),
            Some(smc),
        ) => Some(
            Readings {
                price,
                size,
                rsi,
                macd,
                atr,
                vwap,
                ema20,
                ema50,
                divergence: divergence_of(b, 14),
                smc,
            },
        ),
        _ => None,
    }
}

fn read_market(candles: &[Candle], capital: Decimal, kelly_f: Decimal) -> (r: Option<Market>)
    requires
        candles@.len() >= 55,
    ensures
        match r {
            Some(m) => readings(bars(candles@), capital@, kelly_f@) == Some(m.readings()),
            None => readings(bars(candles@), capital@, kelly_f@) is None,
        },
{
    let c = closes(candles);
    let cs = c.as_slice();
    let n = candles.len();
    let price = candles[n - 1].close.0;
    assert(closes_of(bars(candles@))[n - 1] == price@);
    let size = try_smaller(
        try_larger(capital.checked_mul(kelly_f), Some(Decimal::one())),
        capital.checked_mul(Decimal::new(10, 2)),
    );
    let rsi = number_or(rsi(cs, 14), Some(Decimal::new(50, 0)));
    let macd = match macd(cs) {
        Ok(m) => Some(m),
        Err(IndicatorError::OutOfRange) => {
            return None;
        },
        Err(_) => None,
    };
    let atr = number_or(atr(candles, 14), price.checked_mul(Decimal::new(1, 2)));
    let vwap = number_or(vwap(candles), Some(price));
    let ema20 = number_or(ema_last(cs, 20), Some(price));
    let ema50 = number_or(ema_last(cs, 50), Some(price));
    let divergence = match rsi_divergence(candles, 14) {
        Ok(d) => d,
        Err(_) => None,
    };
    let smc = match analyse(candles, Price(price)) {
        Some(s) => s,
        None => {
            return None;
        },
    };
    match (size, rsi, atr, vwap, ema20, ema50) {
        (Some(size), Some(rsi), Some(atr), Some(vwap), Some(ema20), Some(ema50)) => Some(
            Market { price, size, rsi, macd, atr, vwap, ema20, ema50, divergence, smc },
        ),
        _ => None,
    }
}

// ── Levels ────────────────────────────────────────────────────────

/// Target and stop at multiples of the ATR on the two sides of the entry.
pub open spec fn levels(entry: int, atr: int, tp_mult: int, sl_mult: int, dir: Direction) -> (
    Option<int>,
    Option<int>,
) {
    match dir {
        Direction::Long => (
            o_sum(Some(entry), product(atr, tp_mult)),
            o_difference(Some(entry), product(atr, sl_mult)),
        ),
        Direction::Short => (
            o_difference(Some(entry), product(atr, tp_mult)),
            o_sum(Some(entry), product(atr, sl_mult)),
        ),
    }
}

/// The target and the stop of a trade.
pub fn tp_sl_symmetric(
    entry: Decimal,
    atr: Decimal,
    tp_mult: Decimal,
    sl_mult: Decimal,
    dir: Direction,
) -> (r: (Option<Decimal>, Option<Decimal>))
    ensures
        (val(r.0), val(r.1)) == levels(entry@, atr@, tp_mult@, sl_mult@, dir),
{
    let up = atr.checked_mul(tp_mult);
    let down = atr.checked_mul(sl_mult);
    match dir {
        Direction::Long => (try_sum(Some(entry), up), try_difference(Some(entry), down)),
        Direction::Short => (try_difference(Some(entry), up), try_sum(Some(entry), down)),
    }
}

/// The distance to the target over the distance to the stop, zero where the
/// stop is at the entry.
pub open spec fn reward_over_risk(entry: int, tp: int, sl: int) -> Option<int> {
    match (o_magnitude(difference(tp, entry)), o_magnitude(difference(entry, sl))) {
        (Some(reward), Some(risk)) => if risk == 0 {
            Some(0)
        } else {
            quotient(reward, risk)
        },
        _ => None,
    }
}

/// The reward of a trade over its risk.  `None` where a step leaves the
/// decimal range.
pub fn risk_reward(entry: Decimal, tp: Decimal, sl: Decimal) -> (r: Option<Decimal>)
    ensures
        val(r) == reward_over_risk(entry@, tp@, sl@),
{
    let reward = try_abs(tp.checked_sub(entry));
    let risk = try_abs(entry.checked_sub(sl));
    match (reward, risk) {
        (Some(a), Some(b)) => if b.is_zero() {
            Some(Decimal::zero())
        } else {
            a.checked_div(b)
        },
        _ => None,
    }
}

// ── Plans ─────────────────────────────────────────────────────────

/// A signal that has no id and no time yet.
#[derive(Debug)]
pub struct Plan {
    pub symbol: Symbol,
    pub direction: Direction,
    pub kind: SetupKind,
    pub entry: Price,
    pub take_profit: Price,
    pub stop_loss: Price,
    pub risk_reward: Decimal,
    pub confidence: Decimal,
    pub size_usd: Decimal,
    pub reasons: Vec<String>,
}

impl View for Plan {
    type V = Idea;

    open spec fn view(&self) -> Idea {
        Idea {
            symbol: self.symbol@,
            direction: self.direction,
            kind: self.kind,
            entry: self.entry@,
            take_profit: self.take_profit@,
            stop_loss: self.stop_loss@,
            risk_reward: self.risk_reward@,
            confidence: self.confidence@,
            size_usd: self.size_usd@,
            reasons: texts(self.reasons@),
        }
    }
}

pub open spec fn ideas(s: Seq<Plan>) -> Seq<Idea> {
    s.map_values(|p: Plan| p@)
}

/// What a setup offers at a target and a stop: one idea where its reward over
/// its risk and its confidence reach the floors, none where they do not.
/// `None` where a step leaves the decimal range.
pub open spec fn offer(
    m: Readings,
    symbol: Seq<char>,
    cfg: EngineConfig,
    dir: Direction,
    kind: SetupKind,
    target: (Option<int>, Option<int>),
    confidence: Option<int>,
    reasons: Seq<Seq<char>>,
) -> Option<Seq<Idea>> {
    match target {
        (Some(tp), Some(sl)) => match reward_over_risk(m.price, tp, sl) {
            Some(rr) => if rr >= cfg.min_risk_reward@ {
                match confidence {
                    Some(confidence) => if confidence >= cfg.min_confidence@ {
                        Some(
                            seq![
                                Idea {
                                    symbol: unicode_upper(symbol),
                                    direction: dir,
                                    kind,
                                    entry: m.price,
                                    take_profit: tp,
                                    stop_loss: sl,
                                    risk_reward: rr,
                                    confidence,
                                    size_usd: m.size,
                                    reasons,
                                },
                            ],
                        )
                    } else {
                        Some(seq![])
                    },
                    None => None,
                }
            } else {
                Some(seq![])
            },
            None => None,
        },
        _ => None,
    }
}

fn make_offer(
    out: &mut Vec<Plan>,
    m: &Market,
    symbol: &str,
    cfg: &EngineConfig,
    dir: Direction,
    kind: SetupKind,
    target: (Option<Decimal>, Option<Decimal>),
    confidence: Option<Decimal>,
    reasons: Vec<String>,
) -> (ok: bool)
    ensures
        match offer(
            m.readings(),
            symbol@,
            *cfg,
            dir,
            kind,
            (val(target.0), val(target.1)),
            val(confidence),
            texts(reasons@),
        ) {
            Some(s) => ok && ideas(final(out)@) == ideas(old(out)@) + s,
            None => !ok,
        },
{
    let ghost before = out@;
    match target {
        (Some(tp), Some(sl)) => match risk_reward(m.price, tp, sl) {
            Some(rr) => {
                if !cfg.min_risk_reward.at_most(rr) {
                    assert(ideas(out@) =~= ideas(before) + seq![]);
                    return true;
                }
                match confidence {
                    Some(confidence) => {
                        if !cfg.min_confidence.at_most(confidence) {
                            assert(ideas(out@) =~= ideas(before) + seq![]);
                            return true;
                        }
                        let p = Plan {
                            symbol: Symbol::new(symbol),
                            direction: dir,
                            kind,
                            entry: Price(m.price),
                            take_profit: Price(tp),
                            stop_loss: Price(sl),
                            risk_reward: rr,
                            confidence,
                            size_usd: m.size,
                            reasons,
                        };
                        out.push(p);
                        assert(ideas(out@) =~= ideas(before) + seq![p@]);
                        true
                    },
                    None => false,
                }
            },
            None => false,
        },
        _ => false,
    }
}

/// Two lots of ideas, where both are there.
pub open spec fn both(a: Option<Seq<Idea>>, b: Option<Seq<Idea>>) -> Option<Seq<Idea>> {
    match (a, b) {
        (Some(x), Some(y)) => Some(x + y),
        _ => None,
    }
}

// ── Setup 1: Order Block Bounce + RSI confirmation ────────────────

/// The confidence of a bounce: more where the block is strong and where other
/// concepts agree.
pub open spec fn bounce_confidence(strength: int, score: int, limit: int) -> Option<int> {
    o_min(
        o_sum(
            o_sum(Some(dec(76, 2)), quotient(min_of(strength, dec(30, 0)), dec(300, 0))),
            Some(
                if score > dec(4, 1) {
                    dec(8, 2)
                } else {
                    0
                },
            ),
        ),
        Some(limit),
    )
}

pub open spec fn bounce(m: Readings, symbol: Seq<char>, cfg: EngineConfig, ob: Block) -> Option<
    Seq<Idea>,
> {
    match (ob.dir, ob.contains(m.price, dec(6, 1))) {
        (_, None) => None,
        (Direction::Long, Some(inside)) => if inside && m.rsi < dec(42, 0) {
            offer(
                m,
                symbol,
                cfg,
                Direction::Long,
                SetupKind::OrderBlockBounce,
                (
                    o_sum(Some(m.price), product(m.atr, dec(32, 1))),
                    o_difference(Some(ob.low), product(m.atr, dec(5, 1))),
                ),
                bounce_confidence(ob.strength, m.smc.score, dec(96, 2)),
                m.smc.reasons.push("RSI oversold "@ + fixed(m.rsi, 1)).push(
                    "VWAP "@ + fixed(m.vwap, 4),
                ).push("OB strength "@ + fixed(ob.strength, 0) + "%"@),
            )
        } else {
            Some(seq![])
        },
        (Direction::Short, Some(inside)) => if inside && m.rsi > dec(58, 0) {
            offer(
                m,
                symbol,
                cfg,
                Direction::Short,
                SetupKind::OrderBlockBounce,
                (
                    o_difference(Some(m.price), product(m.atr, dec(32, 1))),
                    o_sum(Some(ob.high), product(m.atr, dec(5, 1))),
                ),
                bounce_confidence(ob.strength, m.smc.score, dec(95, 2)),
                m.smc.reasons.push("RSI overbought "@ + fixed(m.rsi, 1)),
            )
        } else {
            Some(seq![])
        },
    }
}

/// The bounces of the first `n` order blocks.
pub open spec fn bounces(m: Readings, symbol: Seq<char>, cfg: EngineConfig, n: int) -> Option<Seq<Idea>>
    decreases n,
{
    if n <= 0 {
        Some(seq![])
    } else {
        both(bounces(m, symbol, cfg, n - 1), bounce(m, symbol, cfg, m.smc.order_blocks[n - 1]))
    }
}

fn confidence_of_bounce(strength: Decimal, score: Decimal, limit: Decimal) -> (r: Option<Decimal>)
    ensures
        val(r) == bounce_confidence(strength@, score@, limit@),
{
    let bonus = if Decimal::new(4, 1).less(score) {
        Decimal::new(8, 2)
    } else {
        Decimal::zero()
    };
    let part = strength.smaller(Decimal::new(30, 0)).checked_div(Decimal::new(300, 0));
    try_smaller(
        try_sum(try_sum(Some(Decimal::new(76, 2)), part), Some(bonus)),
        Some(limit),
    )
}

fn add_bounce(
    out: &mut Vec<Plan>,
    m: &Market,
    symbol: &str,
    cfg: &EngineConfig,
    ob: &OrderBlock,
) -> (ok: bool)
    ensures
        match bounce(m.readings(), symbol@, *cfg, ob@) {
            Some(s) => ok && ideas(final(out)@) == ideas(old(out)@) + s,
            None => !ok,
        },
{
    let inside = match ob.contains(Price(m.price), Decimal::new(6, 1)) {
        Some(x) => x,
        None => {
            return false;
        },
    };
    let far = m.atr.checked_mul(Decimal::new(32, 1));
    let near = m.atr.checked_mul(Decimal::new(5, 1));
    match ob.dir {
        Direction::Long => {
            if !inside || !m.rsi.less(Decimal::new(42, 0)) {
                assert(ideas(out@) =~= ideas(out@) + seq![]);
                return true;
            }
            let mut reasons = copy_texts(&m.smc.reasons);
            add_text(&mut reasons, labelled("RSI oversold ", m.rsi, 1));
            add_text(&mut reasons, labelled("VWAP ", m.vwap, 4));
            let mut strength = labelled("OB strength ", ob.strength, 0);
            strength.append("%");
            add_text(&mut reasons, strength);
            make_offer(
                out,
                m,
                symbol,
                cfg,
                Direction::Long,
                SetupKind::OrderBlockBounce,
                (try_sum(Some(m.price), far), try_difference(Some(ob.low.0), near)),
                confidence_of_bounce(ob.strength, m.smc.score, Decimal::new(96, 2)),
                reasons,
            )
        },
        Direction::Short => {
            if !inside || !Decimal::new(58, 0).less(m.rsi) {
                assert(ideas(out@) =~= ideas(out@) + seq![]);
                return true;
            }
            let mut reasons = copy_texts(&m.smc.reasons);
            add_text(&mut reasons, labelled("RSI overbought ", m.rsi, 1));
            make_offer(
                out,
                m,
                symbol,
                cfg,
                Direction::Short,
                SetupKind::OrderBlockBounce,
                (try_difference(Some(m.price), far), try_sum(Some(ob.high.0), near)),
                confidence_of_bounce(ob.strength, m.smc.score, Decimal::new(95, 2)),
                reasons,
            )
        },
    }
}

proof fn lemma_bounces_fail(m: Readings, symbol: Seq<char>, cfg: EngineConfig, i: int, j: int)
    requires
        i <= j,
        bounces(m, symbol, cfg, i) is None,
    ensures
        bounces(m, symbol, cfg, j) is None,
    decreases j - i,
{
    if i < j {
        lemma_bounces_fail(m, symbol, cfg, i, j - 1);
    }
}

fn add_bounces(out: &mut Vec<Plan>, m: &Market, symbol: &str, cfg: &EngineConfig) -> (ok: bool)
    ensures
        match bounces(m.readings(), symbol@, *cfg, m.readings().smc.order_blocks.len() as int) {
            Some(s) => ok && ideas(final(out)@) == ideas(old(out)@) + s,
            None => !ok,
        },
{
    let ghost before = ideas(out@);
    let ghost rd = m.readings();
    let ghost all = rd.smc.order_blocks;
    let mut i: usize = 0;
    assert(ideas(out@) =~= before + seq![]);
    while i < m.smc.order_blocks.len()
        invariant
            i <= m.smc.order_blocks@.len() == all.len(),
            rd == m.readings(),
            all == rd.smc.order_blocks,
            bounces(rd, symbol@, *cfg, i as int) is Some,
            ideas(out@) == before + bounces(rd, symbol@, *cfg, i as int)->0,
        decreases all.len() - i,
    {
        let ghost mid = ideas(out@);
        let ghost done = bounces(rd, symbol@, *cfg, i as int)->0;
        let ob = &m.smc.order_blocks[i];
        assert(all[i as int] == ob@);
        if !add_bounce(out, m, symbol, cfg, ob) {
            proof {
                lemma_bounces_fail(rd, symbol@, *cfg, i + 1, all.len() as int);
            }
            return false;
        }
        proof {
            let new = bounce(rd, symbol@, *cfg, ob@)->0;
            assert(ideas(out@) =~= before + (done + new));
        }
        i = i + 1;
    }
    true
}

// ── Setups 2 to 6 ─────────────────────────────────────────────────

/// `high` where the score is above `threshold`, otherwise `low`.
pub open spec fn stepped(score: int, threshold: int, low: int, high: int) -> Option<int> {
    Some(
        if score > threshold {
            high
        } else {
            low
        },
    )
}

fn step(score: Decimal, threshold: Decimal, low: Decimal, high: Decimal) -> (r: Option<Decimal>)
    ensures
        val(r) == stepped(score@, threshold@, low@, high@),
{
    if threshold.less(score) {
        Some(high)
    } else {
        Some(low)
    }
}

/// Change of Character + MACD confirmation.
pub open spec fn reversal(m: Readings, symbol: Seq<char>, cfg: EngineConfig) -> Option<Seq<Idea>> {
    match (m.smc.choch, m.macd) {
        (Some(dir), Some(macd)) => {
            let confirmed = match dir {
                Direction::Long => macd.histogram > 0,
                Direction::Short => macd.histogram < 0,
            };
            if confirmed {
                match product(m.smc.score, dec(100, 0)) {
                    Some(pct) => offer(
                        m,
                        symbol,
                        cfg,
                        dir,
                        SetupKind::ChangeOfCharacter,
                        levels(m.price, m.atr, dec(45, 1), dec(15, 1), dir),
                        stepped(m.smc.score, dec(4, 1), dec(82, 2), dec(91, 2)),
                        seq![
                            dir.name() + " Change of Character"@,
                            "MACD histogram "@ + fixed(macd.histogram, 6),
                            "RSI "@ + fixed(m.rsi, 1),
                            "SMC score "@ + fixed(pct, 0) + "%"@,
                        ],
                    ),
                    None => None,
                }
            } else {
                Some(seq![])
            }
        },
        _ => Some(seq![]),
    }
}

fn add_reversal(out: &mut Vec<Plan>, m: &Market, symbol: &str, cfg: &EngineConfig) -> (ok: bool)
    ensures
        match reversal(m.readings(), symbol@, *cfg) {
            Some(s) => ok && ideas(final(out)@) == ideas(old(out)@) + s,
            None => !ok,
        },
{
    assert(ideas(out@) =~= ideas(out@) + seq![]);
    match (m.smc.choch, m.macd) {
        (Some(dir), Some(macd)) => {
            let zero = Decimal::zero();
            let confirmed = match dir {
                Direction::Long => zero.less(macd.histogram),
                Direction::Short => macd.histogram.less(zero),
            };
            if !confirmed {
                return true;
            }
            let pct = match m.smc.score.checked_mul(Decimal::new(100, 0)) {
                Some(x) => x,
                None => {
                    return false;
                },
            };
            let mut reasons: Vec<String> = Vec::new();
            let mut first = dir.label().to_owned();
            first.append(" Change of Character");
            let mut last = labelled("SMC score ", pct, 0);
            last.append("%");
            add_text(&mut reasons, first);
            add_text(&mut reasons, labelled("MACD histogram ", macd.histogram, 6));
            add_text(&mut reasons, labelled("RSI ", m.rsi, 1));
            add_text(&mut reasons, last);
            assert(texts(reasons@) =~= seq![
                dir.name() + " Change of Character"@,
                "MACD histogram "@ + fixed(macd.histogram@, 6),
                "RSI "@ + fixed(m.rsi@, 1),
                "SMC score "@ + fixed(pct@, 0) + "%"@,
            ]);
            let target = tp_sl_symmetric(
                m.price,
                m.atr,
                Decimal::new(45, 1),
                Decimal::new(15, 1),
                dir,
            );
            let conf = step(
                m.smc.score,
                Decimal::new(4, 1),
                Decimal::new(82, 2),
                Decimal::new(91, 2),
            );
            make_offer(out, m, symbol, cfg, dir, SetupKind::ChangeOfCharacter, target, conf, reasons)
        },
        _ => true,
    }
}

/// Break of Structure + EMA trend alignment.
pub open spec fn breakout(m: Readings, symbol: Seq<char>, cfg: EngineConfig) -> Option<Seq<Idea>> {
    match m.smc.bos {
        Some(dir) => {
            let aligned = match dir {
                Direction::Long => m.ema20 > m.ema50 && m.price > m.ema20,
                Direction::Short => m.ema20 < m.ema50 && m.price < m.ema20,
            };
            let sign = if m.ema20 > m.ema50 {
                " > EMA50 "@
            } else {
                " < EMA50 "@
            };
            if aligned {
                offer(
                    m,
                    symbol,
                    cfg,
                    dir,
                    SetupKind::BreakOfStructure,
                    levels(m.price, m.atr, dec(35, 1), dec(12, 1), dir),
                    stepped(m.smc.score, dec(3, 1), dec(79, 2), dec(89, 2)),
                    seq![
                        dir.name() + " Break of Structure"@,
                        "EMA20 "@ + fixed(m.ema20, 4) + sign + fixed(m.ema50, 4),
                        "VWAP "@ + fixed(m.vwap, 4),
                    ],
                )
            } else {
                Some(seq![])
            }
        },
        None => Some(seq![]),
    }
}

fn add_breakout(out: &mut Vec<Plan>, m: &Market, symbol: &str, cfg: &EngineConfig) -> (ok: bool)
    ensures
        match breakout(m.readings(), symbol@, *cfg) {
            Some(s) => ok && ideas(final(out)@) == ideas(old(out)@) + s,
            None => !ok,
        },
{
    assert(ideas(out@) =~= ideas(out@) + seq![]);
    match m.smc.bos {
        Some(dir) => {
            let rising = m.ema50.less(m.ema20);
            let aligned = match dir {
                Direction::Long => rising && m.ema20.less(m.price),
                Direction::Short => m.ema20.less(m.ema50) && m.price.less(m.ema20),
            };
            if !aligned {
                return true;
            }
            let mut reasons: Vec<String> = Vec::new();
            let mut first = dir.label().to_owned();
            first.append(" Break of Structure");
            let sign = if rising {
                " > EMA50 "
            } else {
                " < EMA50 "
            };
            let mut emas = labelled("EMA20 ", m.ema20, 4);
            emas.append(sign);
            emas.append(fixed_text(m.ema50, 4).as_str());
            add_text(&mut reasons, first);
            add_text(&mut reasons, emas);
            add_text(&mut reasons, labelled("VWAP ", m.vwap, 4));
            assert(texts(reasons@) =~= seq![
                dir.name() + " Break of Structure"@,
                "EMA20 "@ + fixed(m.ema20@, 4) + sign@ + fixed(m.ema50@, 4),
                "VWAP "@ + fixed(m.vwap@, 4),
            ]);
            let target = tp_sl_symmetric(
                m.price,
                m.atr,
                Decimal::new(35, 1),
                Decimal::new(12, 1),
                dir,
            );
            let conf = step(
                m.smc.score,
                Decimal::new(3, 1),
                Decimal::new(79, 2),
                Decimal::new(89, 2),
            );
            make_offer(out, m, symbol, cfg, dir, SetupKind::BreakOfStructure, target, conf, reasons)
        },
        None => true,
    }
}

/// Liquidity Sweep Reversal.
pub open spec fn sweep(m: Readings, symbol: Seq<char>, cfg: EngineConfig) -> Option<Seq<Idea>> {
    match m.smc.liq_sweep {
        Some(dir) => {
            let stretched = match dir {
                Direction::Long => m.rsi < dec(38, 0),
                Direction::Short => m.rsi > dec(62, 0),
            };
            if stretched || m.smc.score > dec(5, 1) {
                offer(
                    m,
                    symbol,
                    cfg,
                    dir,
                    SetupKind::LiquiditySweepReversal,
                    levels(m.price, m.atr, dec(40, 1), dec(10, 1), dir),
                    stepped(m.smc.score, dec(5, 1), dec(83, 2), dec(92, 2)),
                    m.smc.reasons.push("RSI "@ + fixed(m.rsi, 1)),
                )
            } else {
                Some(seq![])
            }
        },
        None => Some(seq![]),
    }
}

fn add_sweep(out: &mut Vec<Plan>, m: &Market, symbol: &str, cfg: &EngineConfig) -> (ok: bool)
    ensures
        match sweep(m.readings(), symbol@, *cfg) {
            Some(s) => ok && ideas(final(out)@) == ideas(old(out)@) + s,
            None => !ok,
        },
{
    assert(ideas(out@) =~= ideas(out@) + seq![]);
    match m.smc.liq_sweep {
        Some(dir) => {
            let stretched = match dir {
                Direction::Long => m.rsi.less(Decimal::new(38, 0)),
                Direction::Short => Decimal::new(62, 0).less(m.rsi),
            };
            if !stretched && !Decimal::new(5, 1).less(m.smc.score) {
                return true;
            }
            let mut reasons = copy_texts(&m.smc.reasons);
            add_text(&mut reasons, labelled("RSI ", m.rsi, 1));
            let target = tp_sl_symmetric(
                m.price,
                m.atr,
                Decimal::new(40, 1),
                Decimal::new(10, 1),
                dir,
            );
            let conf = step(
                m.smc.score,
                Decimal::new(5, 1),
                Decimal::new(83, 2),
                Decimal::new(92, 2),
            );
            make_offer(
                out,
                m,
                symbol,
                cfg,
                dir,
                SetupKind::LiquiditySweepReversal,
                target,
                conf,
                reasons,
            )
        },
        None => true,
    }
}

/// RSI Divergence.
pub open spec fn divergent(m: Readings, symbol: Seq<char>, cfg: EngineConfig) -> Option<Seq<Idea>> {
    match m.divergence {
        Some(dir) => offer(
            m,
            symbol,
            cfg,
            dir,
            SetupKind::RsiDivergence,
            levels(m.price, m.atr, dec(30, 1), dec(15, 1), dir),
            stepped(m.smc.score, dec(3, 1), dec(77, 2), dec(85, 2)),
            seq![
                dir.name() + " RSI Divergence"@,
                "RSI "@ + fixed(m.rsi, 1),
                "VWAP "@ + fixed(m.vwap, 4),
            ],
        ),
        None => Some(seq![]),
    }
}

fn add_divergent(out: &mut Vec<Plan>, m: &Market, symbol: &str, cfg: &EngineConfig) -> (ok: bool)
    ensures
        match divergent(m.readings(), symbol@, *cfg) {
            Some(s) => ok && ideas(final(out)@) == ideas(old(out)@) + s,
            None => !ok,
        },
{
    assert(ideas(out@) =~= ideas(out@) + seq![]);
    match m.divergence {
        Some(dir) => {
            let mut reasons: Vec<String> = Vec::new();
            let mut first = dir.label().to_owned();
            first.append(" RSI Divergence");
            add_text(&mut reasons, first);
            add_text(&mut reasons, labelled("RSI ", m.rsi, 1));
            add_text(&mut reasons, labelled("VWAP ", m.vwap, 4));
            assert(texts(reasons@) =~= seq![
                dir.name() + " RSI Divergence"@,
                "RSI "@ + fixed(m.rsi@, 1),
                "VWAP "@ + fixed(m.vwap@, 4),
            ]);
            let target = tp_sl_symmetric(
                m.price,
                m.atr,
                Decimal::new(30, 1),
                Decimal::new(15, 1),
                dir,
            );
            let conf = step(
                m.smc.score,
                Decimal::new(3, 1),
                Decimal::new(77, 2),
                Decimal::new(85, 2),
            );
            make_offer(out, m, symbol, cfg, dir, SetupKind::RsiDivergence, target, conf, reasons)
        },
        None => true,
    }
}

/// The last candle's volume over the mean volume of the 20 before it; one
/// where that mean is not positive.
pub open spec fn volume_spike(b: Seq<Bar>) -> Option<int> {
    let n = b.len() as int;
    let before = b.subrange(n - 21, n - 1);
    match o_quotient(total_volume(before, 20), Some(dec(20, 0))) {
        Some(avg) => if avg > 0 {
            quotient(b[n - 1].volume, avg)
        } else {
            Some(one())
        },
        None => None,
    }
}

fn spike_of(candles: &[Candle]) -> (r: Option<Decimal>)
    requires
        candles@.len() >= 21,
    ensures
        val(r) == volume_spike(bars(candles@)),
{
    let n = candles.len();
    let ghost b = bars(candles@);
    let ghost before = b.subrange(n - 21, n - 1);
    let mut sum = Some(Decimal::zero());
    let mut i: usize = 0;
    while i < 20
        invariant
            i <= 20,
            n == candles@.len() >= 21,
            b == bars(candles@),
            before == b.subrange(n - 21, n - 1),
            val(sum) == total_volume(before, i as int),
        decreases 20 - i,
    {
        assert(before[i as int] == candles@[n - 21 + i]@);
        sum = try_sum(sum, Some(candles[n - 21 + i].volume.0));
        i = i + 1;
    }
    assert(b[n - 1] == candles@[n - 1]@);
    match try_quotient(sum, Some(Decimal::new(20, 0))) {
        Some(avg) => if Decimal::zero().less(avg) {
            candles[n - 1].volume.0.checked_div(avg)
        } else {
            Some(Decimal::one())
        },
        None => None,
    }
}

/// Volume Breakout.
pub open spec fn surge(
    m: Readings,
    symbol: Seq<char>,
    cfg: EngineConfig,
    spike: Option<int>,
) -> Option<Seq<Idea>> {
    match spike {
        Some(spike) => if spike >= dec(3, 0) {
            let dir = if m.price > m.ema20 {
                Direction::Long
            } else {
                Direction::Short
            };
            offer(
                m,
                symbol,
                cfg,
                dir,
                SetupKind::VolumeBreakout,
                levels(m.price, m.atr, dec(25, 1), dec(10, 1), dir),
                o_min(
                    o_sum(Some(dec(75, 2)), quotient(spike, dec(25, 0))),
                    Some(dec(93, 2)),
                ),
                seq![
                    "Volume spike "@ + fixed(spike, 1) + "× average"@,
                    "Price vs EMA20: "@ + fixed(m.price, 4) + " vs "@ + fixed(m.ema20, 4),
                    "RSI "@ + fixed(m.rsi, 1),
                ],
            )
        } else {
            Some(seq![])
        },
        None => None,
    }
}

fn add_surge(
    out: &mut Vec<Plan>,
    m: &Market,
    symbol: &str,
    cfg: &EngineConfig,
    spike: Option<Decimal>,
) -> (ok: bool)
    ensures
        match surge(m.readings(), symbol@, *cfg, val(spike)) {
            Some(s) => ok && ideas(final(out)@) == ideas(old(out)@) + s,
            None => !ok,
        },
{
    assert(ideas(out@) =~= ideas(out@) + seq![]);
    match spike {
        Some(spike) => {
            if spike.less(Decimal::new(3, 0)) {
                return true;
            }
            let dir = if m.ema20.less(m.price) {
                Direction::Long
            } else {
                Direction::Short
            };
            let mut reasons: Vec<String> = Vec::new();
            let mut first = labelled("Volume spike ", spike, 1);
            first.append("× average");
            let mut second = labelled("Price vs EMA20: ", m.price, 4);
            second.append(" vs ");
            second.append(fixed_text(m.ema20, 4).as_str());
            add_text(&mut reasons, first);
            add_text(&mut reasons, second);
            add_text(&mut reasons, labelled("RSI ", m.rsi, 1));
            assert(texts(reasons@) =~= seq![
                "Volume spike "@ + fixed(spike@, 1) + "× average"@,
                "Price vs EMA20: "@ + fixed(m.price@, 4) + " vs "@ + fixed(m.ema20@, 4),
                "RSI "@ + fixed(m.rsi@, 1),
            ]);
            let target = tp_sl_symmetric(
                m.price,
                m.atr,
                Decimal::new(25, 1),
                Decimal::new(10, 1),
                dir,
            );
            let conf = try_smaller(
                try_sum(Some(Decimal::new(75, 2)), spike.checked_div(Decimal::new(25, 0))),
                Some(Decimal::new(93, 2)),
            );
            make_offer(out, m, symbol, cfg, dir, SetupKind::VolumeBreakout, target, conf, reasons)
        },
        None => false,
    }
}

// ── Entry points ──────────────────────────────────────────────────

/// All that the setups offer, in their order.
pub open spec fn candidates(m: Readings, b: Seq<Bar>, symbol: Seq<char>, cfg: EngineConfig) -> Option<
    Seq<Idea>,
> {
    both(
        both(
            both(
                both(
                    both(
                        bounces(m, symbol, cfg, m.smc.order_blocks.len() as int),
                        reversal(m, symbol, cfg),
                    ),
                    breakout(m, symbol, cfg),
                ),
                sweep(m, symbol, cfg),
            ),
            divergent(m, symbol, cfg),
        ),
        surge(m, symbol, cfg, volume_spike(b)),
    )
}

/// The most confident of some ideas, at most `max` of them.
pub open spec fn strongest(all: Seq<Idea>, max: nat) -> Seq<Idea> {
    let r = ranked(all, all.map_values(|i: Idea| i.confidence));
    if r.len() <= max {
        r
    } else {
        r.take(max as int)
    }
}

/// What the engine says of a row of candles.  `None` where a step leaves the
/// decimal range.
pub open spec fn chosen(
    symbol: Seq<char>,
    b: Seq<Bar>,
    capital: int,
    kelly_f: int,
    cfg: EngineConfig,
) -> Option<Seq<Idea>> {
    if b.len() < 55 {
        Some(seq![])
    } else {
        match readings(b, capital, kelly_f) {
            Some(m) => match candidates(m, b, symbol, cfg) {
                Some(all) => Some(strongest(all, cfg.max_signals as nat)),
                None => None,
            },
            None => None,
        }
    }
}

/// Runs the six setups one after the other.
fn collect(
    m: &Market,
    candles: &[Candle],
    symbol: &str,
    cfg: &EngineConfig,
) -> (r: Option<Vec<Plan>>)
    requires
        candles@.len() >= 55,
    ensures
        match r {
            Some(v) => candidates(m.readings(), bars(candles@), symbol@, *cfg) == Some(ideas(v@)),
            None => candidates(m.readings(), bars(candles@), symbol@, *cfg) is None,
        },
{
    let mut out: Vec<Plan> = Vec::new();
    assert(ideas(out@) =~= seq![]);
    if !add_bounces(&mut out, m, symbol, cfg) {
        return None;
    }
    assert(ideas(out@) =~= bounces(
        m.readings(),
        symbol@,
        *cfg,
        m.readings().smc.order_blocks.len() as int,
    )->0);
    if !add_reversal(&mut out, m, symbol, cfg) {
        return None;
    }
    if !add_breakout(&mut out, m, symbol, cfg) {
        return None;
    }
    if !add_sweep(&mut out, m, symbol, cfg) {
        return None;
    }
    if !add_divergent(&mut out, m, symbol, cfg) {
        return None;
    }
    if !add_surge(&mut out, m, symbol, cfg, spike_of(candles)) {
        return None;
    }
    Some(out)
}

/// The confidences of some plans.
fn confidences(plans: &Vec<Plan>) -> (r: Vec<Decimal>)
    ensures
        r@.len() == plans@.len(),
        values(r@) == ideas(plans@).map_values(|i: Idea| i.confidence),
{
    let mut keys: Vec<Decimal> = Vec::new();
    let mut i: usize = 0;
    while i < plans.len()
        invariant
            i <= plans@.len(),
            keys@.len() == i,
            forall|j: int| 0 <= j < i ==> #[trigger] keys@[j] == plans@[j].confidence,
        decreases plans@.len() - i,
    {
        keys.push(plans[i].confidence);
        i = i + 1;
    }
    assert(values(keys@) =~= ideas(plans@).map_values(|i: Idea| i.confidence));
    keys
}

/// Evaluates all setups for `symbol` and returns the qualifying plans, the
/// most confident first.
///
/// `capital` and `kelly_f` are used to compute `size_usd`.  `None` where a
/// step leaves the decimal range.
pub fn plan(
    symbol: &str,
    candles: &[Candle],
    capital: Decimal,
    kelly_f: Decimal,
    cfg: &EngineConfig,
) -> (r: Option<Vec<Plan>>)
    ensures
        match r {
            Some(v) => chosen(symbol@, bars(candles@), capital@, kelly_f@, *cfg) == Some(
                ideas(v@),
            ),
            None => chosen(symbol@, bars(candles@), capital@, kelly_f@, *cfg) is None,
        },
{
    if candles.len() < 55 {
        let none: Vec<Plan> = Vec::new();
        assert(ideas(none@) =~= seq![]);
        return Some(none);
    }
    let m = match read_market(candles, capital, kelly_f) {
        Some(m) => m,
        None => {
            return None;
        },
    };
    let all = match collect(&m, candles, symbol, cfg) {
        Some(v) => v,
        None => {
            return None;
        },
    };
    let ghost offered = all@;
    let keys = confidences(&all);
    let ghost ks = values(keys@);
    let mut out = rank(all, keys);
    proof {
        ranking_is_stable_and_complete(ks);
        assert(ideas(out@) =~= ranked(ideas(offered), ks));
    }
    if out.len() > cfg.max_signals {
        out.truncate(cfg.max_signals);
        assert(ideas(out@) =~= ranked(ideas(offered), ks).take(cfg.max_signals as int));
    }
    Some(out)
}

/// Makes a signal of a plan.
pub fn build(plan: Plan, id: u128, now: i64) -> (r: Signal)
    ensures
        r.idea() == plan@,
        r.id == id,
        r.created_at == now,
{
    Signal {
        id,
        symbol: plan.symbol,
        direction: plan.direction,
        kind: plan.kind,
        entry: plan.entry,
        take_profit: plan.take_profit,
        stop_loss: plan.stop_loss,
        risk_reward: plan.risk_reward,
        confidence: plan.confidence,
        size_usd: plan.size_usd,
        reasons: plan.reasons,
        created_at: now,
    }
}

/// What some signals say.
pub open spec fn said(s: Seq<Signal>) -> Seq<Idea> {
    s.map_values(|x: Signal| x.idea())
}

/// Evaluates all setups for `symbol` and returns qualifying signals, each
/// with a random id and the time at which it was made.
pub fn evaluate(
    symbol: &str,
    candles: &[Candle],
    capital: Decimal,
    kelly_f: Decimal,
    cfg: &EngineConfig,
) -> (r: Option<Vec<Signal>>)
    ensures
        match r {
            Some(v) => chosen(symbol@, bars(candles@), capital@, kelly_f@, *cfg) == Some(said(v@)),
            None => chosen(symbol@, bars(candles@), capital@, kelly_f@, *cfg) is None,
        },
        r matches Some(v) ==> forall|i: int|
            0 <= i < v@.len() ==> (#[trigger] v@[i]).id >> 76 & 0xf == 4 && v@[i].created_at >= 0,
{
    let mut plans = match plan(symbol, candles, capital, kelly_f, cfg) {
        Some(v) => v,
        None => {
            return None;
        },
    };
    let ghost all = plans@;
    let mut out: Vec<Signal> = Vec::new();
    while plans.len() > 0
        invariant
            plans@.len() + out@.len() == all.len(),
            plans@ == all.subrange(out@.len() as int, all.len() as int),
            forall|i: int| 0 <= i < out@.len() ==> (#[trigger] out@[i]).idea() == all[i]@,
            forall|i: int|
                0 <= i < out@.len() ==> (#[trigger] out@[i]).id >> 76 & 0xf == 4
                    && out@[i].created_at >= 0,
        decreases plans@.len(),
    {
        let p = plans.remove(0);
        out.push(build(p, fresh_id(), now_millis()));
        assert(plans@ =~= all.subrange(out@.len() as int, all.len() as int));
    }
    assert(said(out@) =~= ideas(all));
    Some(out)
}

// ── Laws ──────────────────────────────────────────────────────────

/// The target of a trade lies on its winning side and the stop on its losing
/// side, whatever is rounded.
pub proof fn levels_lie_on_their_sides(
    entry: int,
    atr: int,
    tp_mult: int,
    sl_mult: int,
    dir: Direction,
)
    requires
        representable(entry),
        atr >= 0,
        tp_mult >= 0,
        sl_mult >= 0,
    ensures
        levels(entry, atr, tp_mult, sl_mult, dir).0 matches Some(tp) ==> match dir {
            Direction::Long => tp >= entry,
            Direction::Short => tp <= entry,
        },
        levels(entry, atr, tp_mult, sl_mult, dir).1 matches Some(sl) ==> match dir {
            Direction::Long => sl <= entry,
            Direction::Short => sl >= entry,
        },
{
    sign_is_kept(atr, tp_mult);
    sign_is_kept(atr, sl_mult);
    if let Some(far) = product(atr, tp_mult) {
        steps_keep_their_side(entry, far);
    }
    if let Some(near) = product(atr, sl_mult) {
        steps_keep_their_side(entry, near);
    }
}

/// Does an idea reach the floors of the configuration, with a confidence of
/// at most 0.96, for the symbol in upper case, at the last close and with the
/// size of a trade?
pub open spec fn qualifies(m: Readings, symbol: Seq<char>, cfg: EngineConfig, i: Idea) -> bool {
    &&& cfg.min_confidence@ <= i.confidence <= dec(96, 2)
    &&& i.risk_reward >= cfg.min_risk_reward@
    &&& i.symbol == unicode_upper(symbol)
    &&& i.entry == m.price
    &&& i.size_usd == m.size
}

spec fn all_qualify(
    m: Readings,
    symbol: Seq<char>,
    cfg: EngineConfig,
    s: Option<Seq<Idea>>,
) -> bool {
    s matches Some(v) ==> forall|i: int|
        0 <= i < v.len() ==> qualifies(m, symbol, cfg, #[trigger] v[i])
}

proof fn lemma_confidence_limits()
    ensures
        dec(75, 2) <= dec(96, 2),
        dec(77, 2) <= dec(96, 2),
        dec(79, 2) <= dec(96, 2),
        dec(82, 2) <= dec(96, 2),
        dec(83, 2) <= dec(96, 2),
        dec(85, 2) <= dec(96, 2),
        dec(89, 2) <= dec(96, 2),
        dec(91, 2) <= dec(96, 2),
        dec(92, 2) <= dec(96, 2),
        dec(93, 2) <= dec(96, 2),
        dec(95, 2) <= dec(96, 2),
{
    lemma_dec_monotone(75, 96, 2);
    lemma_dec_monotone(77, 96, 2);
    lemma_dec_monotone(79, 96, 2);
    lemma_dec_monotone(82, 96, 2);
    lemma_dec_monotone(83, 96, 2);
    lemma_dec_monotone(85, 96, 2);
    lemma_dec_monotone(89, 96, 2);
    lemma_dec_monotone(91, 96, 2);
    lemma_dec_monotone(92, 96, 2);
    lemma_dec_monotone(93, 96, 2);
    lemma_dec_monotone(95, 96, 2);
}

proof fn lemma_bounces_qualify(m: Readings, symbol: Seq<char>, cfg: EngineConfig, n: int)
    ensures
        all_qualify(m, symbol, cfg, bounces(m, symbol, cfg, n)),
    decreases n,
{
    lemma_confidence_limits();
    if n > 0 {
        lemma_bounces_qualify(m, symbol, cfg, n - 1);
        assert(all_qualify(m, symbol, cfg, bounce(m, symbol, cfg, m.smc.order_blocks[n - 1])));
    }
}

proof fn lemma_candidates_qualify(m: Readings, b: Seq<Bar>, symbol: Seq<char>, cfg: EngineConfig)
    ensures
        all_qualify(m, symbol, cfg, candidates(m, b, symbol, cfg)),
{
    lemma_confidence_limits();
    lemma_bounces_qualify(m, symbol, cfg, m.smc.order_blocks.len() as int);
    assert(all_qualify(m, symbol, cfg, reversal(m, symbol, cfg)));
    assert(all_qualify(m, symbol, cfg, breakout(m, symbol, cfg)));
    assert(all_qualify(m, symbol, cfg, sweep(m, symbol, cfg)));
    assert(all_qualify(m, symbol, cfg, divergent(m, symbol, cfg)));
    assert(all_qualify(m, symbol, cfg, surge(m, symbol, cfg, volume_spike(b))));
}

/// At most `max_signals` signals come out, each of which reaches the floors of
/// confidence and of reward over risk.  No signal is more confident than one
/// before it, and nothing that was left out is more confident than a signal.
pub proof fn signals_qualify(
    symbol: Seq<char>,
    b: Seq<Bar>,
    capital: int,
    kelly_f: int,
    cfg: EngineConfig,
)
    ensures
        chosen(symbol, b, capital, kelly_f, cfg) matches Some(s) ==> {
            let m = readings(b, capital, kelly_f)->0;
            let all = candidates(m, b, symbol, cfg)->0;
            &&& s.len() <= cfg.max_signals
            &&& forall|i: int| 0 <= i < s.len() ==> qualifies(m, symbol, cfg, #[trigger] s[i])
            &&& forall|i: int, j: int|
                0 <= i < j < s.len() ==> (#[trigger] s[i]).confidence >= (
                #[trigger] s[j]).confidence
            &&& forall|k: int, i: int|
                b.len() >= 55 && 0 <= k < all.len() && 0 <= i < s.len() && !s.contains(
                    #[trigger] all[k],
                ) ==> all[k].confidence <= (#[trigger] s[i]).confidence
        },
{
    if b.len() >= 55 && chosen(symbol, b, capital, kelly_f, cfg) is Some {
        let m = readings(b, capital, kelly_f)->0;
        let all = candidates(m, b, symbol, cfg)->0;
        let keys = all.map_values(|i: Idea| i.confidence);
        lemma_candidates_qualify(m, b, symbol, cfg);
        ranking_is_stable_and_complete(keys);
        let s = chosen(symbol, b, capital, kelly_f, cfg)->0;
        let r = ranking(keys);
        assert forall|i: int| 0 <= i < s.len() implies qualifies(m, symbol, cfg, #[trigger] s[i]) by {
            assert(s[i] == all[r[i]]);
        }
        assert forall|i: int, j: int| 0 <= i < j < s.len() implies (#[trigger] s[i]).confidence >= (
        #[trigger] s[j]).confidence by {
            assert(outranks(keys, r[i], r[j]));
            assert(s[i] == all[r[i]] && s[j] == all[r[j]]);
        }
        assert forall|k: int, i: int|
            0 <= k < all.len() && 0 <= i < s.len() && !s.contains(
                #[trigger] all[k],
            ) implies all[k].confidence <= (#[trigger] s[i]).confidence by {
            assert(r.contains(k));
            let a = r.index_of(k);
            if a < s.len() {
                assert(s[a] == all[k]);
            }
            assert(outranks(keys, r[i], r[a]));
            assert(s[i] == all[r[i]]);
        }
    }
}

/// Does an idea's target lie on the winning side of its entry?  And, but for
/// a bounce, whose stop lies beyond its block, its stop on the losing side?
pub open spec fn aimed(i: Idea) -> bool {
    match i.direction {
        Direction::Long => i.take_profit >= i.entry && (i.kind != SetupKind::OrderBlockBounce
            ==> i.stop_loss <= i.entry),
        Direction::Short => i.take_profit <= i.entry && (i.kind != SetupKind::OrderBlockBounce
            ==> i.stop_loss >= i.entry),
    }
}

spec fn all_aimed(s: Option<Seq<Idea>>) -> bool {
    s matches Some(v) ==> forall|i: int| 0 <= i < v.len() ==> aimed(#[trigger] v[i])
}

proof fn lemma_levels_aimed(m: Readings, tp_tenths: int, sl_tenths: int, dir: Direction)
    requires
        representable(m.price),
        m.atr >= 0,
        tp_tenths >= 0,
        sl_tenths >= 0,
    ensures
        levels(m.price, m.atr, dec(tp_tenths, 1), dec(sl_tenths, 1), dir).0 matches Some(tp)
            ==> match dir {
            Direction::Long => tp >= m.price,
            Direction::Short => tp <= m.price,
        },
        levels(m.price, m.atr, dec(tp_tenths, 1), dec(sl_tenths, 1), dir).1 matches Some(sl)
            ==> match dir {
            Direction::Long => sl <= m.price,
            Direction::Short => sl >= m.price,
        },
{
    lemma_dec_monotone(0, tp_tenths, 1);
    lemma_dec_monotone(0, sl_tenths, 1);
    levels_lie_on_their_sides(m.price, m.atr, dec(tp_tenths, 1), dec(sl_tenths, 1), dir);
}

proof fn lemma_bounces_aimed(m: Readings, symbol: Seq<char>, cfg: EngineConfig, n: int)
    requires
        representable(m.price),
        m.atr >= 0,
    ensures
        all_aimed(bounces(m, symbol, cfg, n)),
    decreases n,
{
    if n > 0 {
        lemma_bounces_aimed(m, symbol, cfg, n - 1);
        // The target of a bounce is that of a trade at 3.2 times the ATR.
        lemma_levels_aimed(m, 32, 0, Direction::Long);
        lemma_levels_aimed(m, 32, 0, Direction::Short);
        assert(all_aimed(bounce(m, symbol, cfg, m.smc.order_blocks[n - 1])));
    }
}

#[verifier::rlimit(40)]
proof fn lemma_candidates_aimed(m: Readings, b: Seq<Bar>, symbol: Seq<char>, cfg: EngineConfig)
    requires
        representable(m.price),
        m.atr >= 0,
    ensures
        all_aimed(candidates(m, b, symbol, cfg)),
{
    assert(all_aimed(reversal(m, symbol, cfg))) by {
        if let Some(dir) = m.smc.choch {
            lemma_levels_aimed(m, 45, 15, dir);
        }
    }
    assert(all_aimed(breakout(m, symbol, cfg))) by {
        if let Some(dir) = m.smc.bos {
            lemma_levels_aimed(m, 35, 12, dir);
        }
    }
    assert(all_aimed(sweep(m, symbol, cfg))) by {
        if let Some(dir) = m.smc.liq_sweep {
            lemma_levels_aimed(m, 40, 10, dir);
        }
    }
    assert(all_aimed(divergent(m, symbol, cfg))) by {
        if let Some(dir) = m.divergence {
            lemma_levels_aimed(m, 30, 15, dir);
        }
    }
    assert(all_aimed(surge(m, symbol, cfg, volume_spike(b)))) by {
        lemma_levels_aimed(m, 25, 10, Direction::Long);
        lemma_levels_aimed(m, 25, 10, Direction::Short);
    }
    lemma_bounces_aimed(m, symbol, cfg, m.smc.order_blocks.len() as int);
}

/// Every signal's target lies on the winning side of its entry.  But for an
/// order block's bounce, its stop lies on the losing side.
pub proof fn signals_are_aimed(
    symbol: Seq<char>,
    b: Seq<Bar>,
    capital: int,
    kelly_f: int,
    cfg: EngineConfig,
)
    requires
        b.len() > 0 ==> representable(b.last().close),
    ensures
        chosen(symbol, b, capital, kelly_f, cfg) matches Some(s) ==> forall|i: int|
            0 <= i < s.len() ==> aimed(#[trigger] s[i]),
{
    if b.len() >= 55 && chosen(symbol, b, capital, kelly_f, cfg) is Some {
        let m = readings(b, capital, kelly_f)->0;
        let all = candidates(m, b, symbol, cfg)->0;
        let keys = all.map_values(|i: Idea| i.confidence);
        atr_is_not_negative(b, 14);
        lemma_candidates_aimed(m, b, symbol, cfg);
        ranking_is_stable_and_complete(keys);
        let s = chosen(symbol, b, capital, kelly_f, cfg)->0;
        assert forall|i: int| 0 <= i < s.len() implies aimed(#[trigger] s[i]) by {
            assert(s[i] == all[ranking(keys)[i]]);
        }
    }
}

/// Do the candles show the setup of an idea, in its direction?
pub open spec fn shown(b: Seq<Bar>, i: Idea) -> bool {
    let c = closes_of(b);
    let up = i.direction == Direction::Long;
    match i.kind {
        SetupKind::OrderBlockBounce => {
            &&& rsi_of(c, 14) matches Ok(rsi) && (if up {
                rsi < dec(42, 0)
            } else {
                rsi > dec(58, 0)
            })
            &&& exists|j: int|
                0 <= j < order_blocks(b)->0.len() && (#[trigger] order_blocks(b)->0[j]).dir
                    == i.direction && order_blocks(b)->0[j].contains(i.entry, dec(6, 1)) == Some(
                    true,
                )
        },
        SetupKind::FairValueGapFill => false,
        SetupKind::BreakOfStructure => {
            &&& structure_break(b) == Some(i.direction)
            &&& last_of(ema_of(c, 20)) matches Ok(fast) && last_of(ema_of(c, 50)) matches Ok(slow)
                && (if up {
                fast > slow && i.entry > fast
            } else {
                fast < slow && i.entry < fast
            })
        },
        SetupKind::ChangeOfCharacter => {
            &&& character_change(b) == Some(i.direction)
            &&& macd_of(c) matches Ok(macd) && (if up {
                macd.histogram > 0
            } else {
                macd.histogram < 0
            })
        },
        SetupKind::LiquiditySweepReversal => liquidity_sweep(b) == Some(i.direction),
        SetupKind::RsiDivergence => divergence_of(b, 14) == Some(i.direction),
        SetupKind::VolumeBreakout => {
            &&& volume_spike(b) matches Some(spike) && spike >= dec(3, 0)
            &&& last_of(ema_of(c, 20)) matches Ok(fast) && up == (i.entry > fast)
        },
    }
}

spec fn all_shown(b: Seq<Bar>, s: Option<Seq<Idea>>) -> bool {
    s matches Some(v) ==> forall|i: int| 0 <= i < v.len() ==> shown(b, #[trigger] v[i])
}

/// The readings are those of the candles.
spec fn read_off(b: Seq<Bar>, m: Readings) -> bool {
    let c = closes_of(b);
    &&& rsi_of(c, 14) == Ok::<int, IndicatorError>(m.rsi)
    &&& m.macd matches Some(x) ==> macd_of(c) == Ok::<Macd, IndicatorError>(x)
    &&& last_of(ema_of(c, 20)) == Ok::<int, IndicatorError>(m.ema20)
    &&& last_of(ema_of(c, 50)) == Ok::<int, IndicatorError>(m.ema50)
    &&& m.divergence == divergence_of(b, 14)
    &&& m.smc.choch == character_change(b)
    &&& m.smc.bos == structure_break(b)
    &&& m.smc.liq_sweep == liquidity_sweep(b)
    &&& order_blocks(b) == Some(m.smc.order_blocks)
}

proof fn lemma_read_off(b: Seq<Bar>, capital: int, kelly_f: int)
    requires
        b.len() >= 55,
        readings(b, capital, kelly_f) is Some,
    ensures
        read_off(b, readings(b, capital, kelly_f)->0),
{
}

proof fn lemma_bounces_shown(
    b: Seq<Bar>,
    m: Readings,
    symbol: Seq<char>,
    cfg: EngineConfig,
    n: int,
)
    requires
        read_off(b, m),
        n <= m.smc.order_blocks.len(),
    ensures
        all_shown(b, bounces(m, symbol, cfg, n)),
    decreases n,
{
    if n > 0 {
        lemma_bounces_shown(b, m, symbol, cfg, n - 1);
        assert(order_blocks(b)->0[n - 1] == m.smc.order_blocks[n - 1]);
        assert(all_shown(b, bounce(m, symbol, cfg, m.smc.order_blocks[n - 1])));
    }
}

proof fn lemma_candidates_shown(b: Seq<Bar>, m: Readings, symbol: Seq<char>, cfg: EngineConfig)
    requires
        read_off(b, m),
    ensures
        all_shown(b, candidates(m, b, symbol, cfg)),
{
    assert(all_shown(b, reversal(m, symbol, cfg)));
    assert(all_shown(b, breakout(m, symbol, cfg)));
    assert(all_shown(b, sweep(m, symbol, cfg)));
    assert(all_shown(b, divergent(m, symbol, cfg)));
    assert(all_shown(b, surge(m, symbol, cfg, volume_spike(b))));
    lemma_bounces_shown(b, m, symbol, cfg, m.smc.order_blocks.len() as int);
}

/// Every signal comes of what the candles show: a change of character, a break
/// of structure, a sweep or a divergence in its direction, a bounce off a block
/// of its direction while the RSI is stretched, or a spike of the volume.  None
/// is a gap fill.
pub proof fn signals_show_their_setup(
    symbol: Seq<char>,
    b: Seq<Bar>,
    capital: int,
    kelly_f: int,
    cfg: EngineConfig,
)
    ensures
        chosen(symbol, b, capital, kelly_f, cfg) matches Some(s) ==> forall|i: int|
            0 <= i < s.len() ==> shown(b, #[trigger] s[i]),
{
    if b.len() >= 55 && chosen(symbol, b, capital, kelly_f, cfg) is Some {
        let m = readings(b, capital, kelly_f)->0;
        let all = candidates(m, b, symbol, cfg)->0;
        let keys = all.map_values(|i: Idea| i.confidence);
        lemma_read_off(b, capital, kelly_f);
        lemma_candidates_shown(b, m, symbol, cfg);
        ranking_is_stable_and_complete(keys);
        let s = chosen(symbol, b, capital, kelly_f, cfg)->0;
        assert forall|i: int| 0 <= i < s.len() implies shown(b, #[trigger] s[i]) by {
            assert(s[i] == all[ranking(keys)[i]]);
        }
    }
}

} // verus!
