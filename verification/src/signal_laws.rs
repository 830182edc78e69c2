//! Which setups the candles offer, told by the candles alone: each that is
//! there and reaches the floors, and no other.

use vstd::prelude::*;

use crate::decimal::{dec, difference, lemma_pow10_28, o_difference, o_sum, one, product, quotient};
use crate::indicator_laws::volumes;
use crate::indicators::{
    atr_of, closes_of, divergence_of, ema_of, last_of, macd_of, rsi_of, total_volume, vwap_of,
};
use crate::ranking::{outranks, ranking, ranking_is_stable_and_complete};
use crate::signals::{
    bounce, bounces, breakout, candidates, chosen, divergent, levels, offer, readings, reversal,
    signals_qualify, strongest, surge, sweep, trade_size, volume_spike, EngineConfig, Readings,
};
use crate::smc::{character_change, context, liquidity_sweep, order_blocks, structure_break, Block};
use crate::sums::{adds_exactly, sum_of, sum_stays_exact};
use crate::text::{fixed, unicode_upper};
use crate::types::{Bar, Direction, Idea, SetupKind};

verus! {

// ── What is offered ───────────────────────────────────────────────

/// The price that lies a way ahead of an entry in a direction.
pub open spec fn ahead(entry: int, dir: Direction, way: Option<int>) -> Option<int> {
    match dir {
        Direction::Long => o_sum(Some(entry), way),
        Direction::Short => o_difference(Some(entry), way),
    }
}

/// The price that lies a way behind an entry in a direction.
pub open spec fn behind(entry: int, dir: Direction, way: Option<int>) -> Option<int> {
    match dir {
        Direction::Long => o_difference(Some(entry), way),
        Direction::Short => o_sum(Some(entry), way),
    }
}

/// The way from one price to another.
pub open spec fn way(from: int, to: int) -> Option<int> {
    match difference(to, from) {
        Some(d) => Some(
            if d < 0 {
                -d
            } else {
                d
            },
        ),
        None => None,
    }
}

/// What a target brings for what a stop costs; nothing where the stop is at the
/// entry.
pub open spec fn worth(entry: int, tp: int, sl: int) -> Option<int> {
    match (way(entry, tp), way(sl, entry)) {
        (Some(reward), Some(risk)) => if risk == 0 {
            Some(0)
        } else {
            quotient(reward, risk)
        },
        _ => None,
    }
}

/// Do a target, a stop and a confidence reach the floors?
pub open spec fn reaches(
    entry: int,
    tp: Option<int>,
    sl: Option<int>,
    confidence: int,
    cfg: EngineConfig,
) -> bool {
    &&& tp is Some && sl is Some
    &&& worth(entry, tp->0, sl->0) matches Some(w) && w >= cfg.min_risk_reward@
    &&& confidence >= cfg.min_confidence@
}

/// Is there an idea of a kind and a direction?
pub open spec fn offered(all: Seq<Idea>, kind: SetupKind, dir: Direction) -> bool {
    exists|k: int| 0 <= k < all.len() && (#[trigger] all[k]).kind == kind && all[k].direction == dir
}

/// Have all ideas of a kind and a direction this entry, target, stop, worth,
/// confidence and these reasons?
pub open spec fn told(
    all: Seq<Idea>,
    kind: SetupKind,
    dir: Direction,
    entry: int,
    tp: Option<int>,
    sl: Option<int>,
    confidence: int,
    reasons: Seq<Seq<char>>,
) -> bool {
    forall|k: int|
        0 <= k < all.len() && (#[trigger] all[k]).kind == kind && all[k].direction == dir ==> {
            &&& all[k].entry == entry
            &&& Some(all[k].take_profit) == tp
            &&& Some(all[k].stop_loss) == sl
            &&& worth(entry, all[k].take_profit, all[k].stop_loss) == Some(all[k].risk_reward)
            &&& all[k].confidence == confidence
            &&& all[k].reasons == reasons
        }
}

/// The volume-weighted price, and the last close where nothing was traded.
pub open spec fn fair_price(b: Seq<Bar>) -> int {
    match vwap_of(b) {
        Ok(v) => v,
        Err(_) => b.last().close,
    }
}

/// The ideas that the candles give before the strongest are chosen.
pub open spec fn given(
    symbol: Seq<char>,
    b: Seq<Bar>,
    capital: int,
    kelly_f: int,
    cfg: EngineConfig,
) -> Option<Seq<Idea>> {
    match readings(b, capital, kelly_f) {
        Some(m) => candidates(m, b, symbol, cfg),
        None => None,
    }
}

proof fn lemma_bounces_are_bounces(m: Readings, symbol: Seq<char>, cfg: EngineConfig, n: int)
    ensures
        bounces(m, symbol, cfg, n) matches Some(s) ==> forall|k: int|
            0 <= k < s.len() ==> (#[trigger] s[k]).kind == SetupKind::OrderBlockBounce,
    decreases n,
{
    if n > 0 {
        lemma_bounces_are_bounces(m, symbol, cfg, n - 1);
    }
}

/// The part of the candidates that a kind comes from.
spec fn part_of(
    m: Readings,
    b: Seq<Bar>,
    symbol: Seq<char>,
    cfg: EngineConfig,
    kind: SetupKind,
) -> Option<Seq<Idea>> {
    match kind {
        SetupKind::OrderBlockBounce => bounces(m, symbol, cfg, m.smc.order_blocks.len() as int),
        SetupKind::ChangeOfCharacter => reversal(m, symbol, cfg),
        SetupKind::BreakOfStructure => breakout(m, symbol, cfg),
        SetupKind::LiquiditySweepReversal => sweep(m, symbol, cfg),
        SetupKind::RsiDivergence => divergent(m, symbol, cfg),
        SetupKind::VolumeBreakout => surge(m, symbol, cfg, volume_spike(b)),
        SetupKind::FairValueGapFill => Some(seq![]),
    }
}

spec fn all_of_kind(s: Option<Seq<Idea>>, kind: SetupKind) -> bool {
    s matches Some(v) ==> forall|k: int| 0 <= k < v.len() ==> (#[trigger] v[k]).kind == kind
}

proof fn lemma_from_part(
    all: Seq<Idea>,
    part: Seq<Idea>,
    head: Seq<Idea>,
    tail: Seq<Idea>,
    kind: SetupKind,
    dir: Direction,
)
    requires
        all == head + part + tail,
        forall|k: int| 0 <= k < head.len() ==> (#[trigger] head[k]).kind != kind,
        forall|k: int| 0 <= k < tail.len() ==> (#[trigger] tail[k]).kind != kind,
    ensures
        offered(all, kind, dir) <==> offered(part, kind, dir),
        forall|k: int|
            0 <= k < all.len() && (#[trigger] all[k]).kind == kind ==> part.contains(all[k]),
{
    let h = head.len() as int;
    let p = part.len() as int;
    assert forall|k: int| 0 <= k < all.len() && (#[trigger] all[k]).kind == kind implies h <= k < h
        + p && all[k] == part[k - h] by {
        if k < h {
            assert(all[k] == head[k]);
        } else if k >= h + p {
            assert(all[k] == tail[k - h - p]);
        }
    }
    assert forall|k: int| 0 <= k < part.len() implies #[trigger] part[k] == all[h + k] by {
    }
    if offered(part, kind, dir) {
        let k = choose|k: int|
            0 <= k < part.len() && (#[trigger] part[k]).kind == kind && part[k].direction == dir;
        assert(all[h + k].kind == kind);
    }
}

/// Each kind of idea comes from a part of its own.
proof fn lemma_kind(
    m: Readings,
    b: Seq<Bar>,
    symbol: Seq<char>,
    cfg: EngineConfig,
    kind: SetupKind,
    dir: Direction,
)
    requires
        candidates(m, b, symbol, cfg) is Some,
    ensures
        part_of(m, b, symbol, cfg, kind) is Some,
        ({
            let all = candidates(m, b, symbol, cfg)->0;
            let part = part_of(m, b, symbol, cfg, kind)->0;
            &&& offered(all, kind, dir) <==> offered(part, kind, dir)
            &&& forall|k: int|
                0 <= k < all.len() && (#[trigger] all[k]).kind == kind ==> part.contains(all[k])
        }),
{
    let n = m.smc.order_blocks.len() as int;
    let all = candidates(m, b, symbol, cfg)->0;
    let a1 = bounces(m, symbol, cfg, n)->0;
    let a2 = reversal(m, symbol, cfg)->0;
    let a3 = breakout(m, symbol, cfg)->0;
    let a4 = sweep(m, symbol, cfg)->0;
    let a5 = divergent(m, symbol, cfg)->0;
    let a6 = surge(m, symbol, cfg, volume_spike(b))->0;
    lemma_bounces_are_bounces(m, symbol, cfg, n);
    assert(all_of_kind(bounces(m, symbol, cfg, n), SetupKind::OrderBlockBounce));
    assert(all_of_kind(reversal(m, symbol, cfg), SetupKind::ChangeOfCharacter));
    assert(all_of_kind(breakout(m, symbol, cfg), SetupKind::BreakOfStructure));
    assert(all_of_kind(sweep(m, symbol, cfg), SetupKind::LiquiditySweepReversal));
    assert(all_of_kind(divergent(m, symbol, cfg), SetupKind::RsiDivergence));
    assert(all_of_kind(surge(m, symbol, cfg, volume_spike(b)), SetupKind::VolumeBreakout));
    assert(all == a1 + a2 + a3 + a4 + a5 + a6);
    lemma_split(a1, a2, a3, a4, a5, a6, kind, dir);
}

proof fn lemma_split(
    a1: Seq<Idea>,
    a2: Seq<Idea>,
    a3: Seq<Idea>,
    a4: Seq<Idea>,
    a5: Seq<Idea>,
    a6: Seq<Idea>,
    kind: SetupKind,
    dir: Direction,
)
    requires
        all_of_kind(Some(a1), SetupKind::OrderBlockBounce),
        all_of_kind(Some(a2), SetupKind::ChangeOfCharacter),
        all_of_kind(Some(a3), SetupKind::BreakOfStructure),
        all_of_kind(Some(a4), SetupKind::LiquiditySweepReversal),
        all_of_kind(Some(a5), SetupKind::RsiDivergence),
        all_of_kind(Some(a6), SetupKind::VolumeBreakout),
    ensures
        ({
            let all = a1 + a2 + a3 + a4 + a5 + a6;
            let part = match kind {
                SetupKind::OrderBlockBounce => a1,
                SetupKind::ChangeOfCharacter => a2,
                SetupKind::BreakOfStructure => a3,
                SetupKind::LiquiditySweepReversal => a4,
                SetupKind::RsiDivergence => a5,
                SetupKind::VolumeBreakout => a6,
                SetupKind::FairValueGapFill => seq![],
            };
            &&& offered(all, kind, dir) <==> offered(part, kind, dir)
            &&& forall|k: int|
                0 <= k < all.len() && (#[trigger] all[k]).kind == kind ==> part.contains(all[k])
        }),
{
    let all = a1 + a2 + a3 + a4 + a5 + a6;
    let none = Seq::<Idea>::empty();
    match kind {
        SetupKind::OrderBlockBounce => {
            assert(all =~= none + a1 + (a2 + a3 + a4 + a5 + a6));
            lemma_from_part(all, a1, none, a2 + a3 + a4 + a5 + a6, kind, dir);
        },
        SetupKind::ChangeOfCharacter => {
            assert(all =~= a1 + a2 + (a3 + a4 + a5 + a6));
            lemma_from_part(all, a2, a1, a3 + a4 + a5 + a6, kind, dir);
        },
        SetupKind::BreakOfStructure => {
            assert(all =~= (a1 + a2) + a3 + (a4 + a5 + a6));
            lemma_from_part(all, a3, a1 + a2, a4 + a5 + a6, kind, dir);
        },
        SetupKind::LiquiditySweepReversal => {
            assert(all =~= (a1 + a2 + a3) + a4 + (a5 + a6));
            lemma_from_part(all, a4, a1 + a2 + a3, a5 + a6, kind, dir);
        },
        SetupKind::RsiDivergence => {
            assert(all =~= (a1 + a2 + a3 + a4) + a5 + a6);
            lemma_from_part(all, a5, a1 + a2 + a3 + a4, a6, kind, dir);
        },
        SetupKind::VolumeBreakout => {
            assert(all =~= (a1 + a2 + a3 + a4 + a5) + a6 + none);
            lemma_from_part(all, a6, a1 + a2 + a3 + a4 + a5, none, kind, dir);
        },
        SetupKind::FairValueGapFill => {
            assert(all =~= all + none + none);
            lemma_from_part(all, none, all, none, kind, dir);
        },
    }
}

/// What the market says of the candles, number by number.
proof fn lemma_market(b: Seq<Bar>, capital: int, kelly_f: int)
    requires
        b.len() >= 55,
        readings(b, capital, kelly_f) is Some,
    ensures
        ({
            let m = readings(b, capital, kelly_f)->0;
            let c = closes_of(b);
            &&& m.price == b.last().close
            &&& rsi_of(c, 14) is Ok && rsi_of(c, 14)->Ok_0 == m.rsi
            &&& atr_of(b, 14) is Ok && atr_of(b, 14)->Ok_0 == m.atr
            &&& last_of(ema_of(c, 20)) is Ok && last_of(ema_of(c, 20))->Ok_0 == m.ema20
            &&& last_of(ema_of(c, 50)) is Ok && last_of(ema_of(c, 50))->Ok_0 == m.ema50
            &&& m.macd is Some && macd_of(c) is Ok && macd_of(c)->Ok_0 == m.macd->0
            &&& m.divergence == divergence_of(b, 14)
            &&& context(b, m.price) == Some(m.smc)
            &&& m.smc.choch == character_change(b)
            &&& m.smc.bos == structure_break(b)
            &&& m.smc.liq_sweep == liquidity_sweep(b)
            &&& order_blocks(b) == Some(m.smc.order_blocks)
            &&& trade_size(capital, kelly_f) == Some(m.size)
            &&& m.vwap == fair_price(b)
        }),
{
}

proof fn lemma_ahead(m: Readings, dir: Direction, tp: int, sl: int)
    ensures
        levels(m.price, m.atr, tp, sl, dir) == (
            ahead(m.price, dir, product(m.atr, tp)),
            behind(m.price, dir, product(m.atr, sl)),
        ),
{
}

/// A part that offers one idea or none.
proof fn lemma_single(
    m: Readings,
    symbol: Seq<char>,
    cfg: EngineConfig,
    dir: Direction,
    kind: SetupKind,
    tp: Option<int>,
    sl: Option<int>,
    confidence: int,
    reasons: Seq<Seq<char>>,
)
    ensures
        offer(m, symbol, cfg, dir, kind, (tp, sl), Some(confidence), reasons)
            matches Some(s) ==> {
            &&& s.len() <= 1
            &&& s.len() == 1 <==> reaches(m.price, tp, sl, confidence, cfg)
            &&& s.len() == 1 ==> {
                &&& s[0].kind == kind && s[0].direction == dir
                &&& s[0].entry == m.price
                &&& Some(s[0].take_profit) == tp
                &&& Some(s[0].stop_loss) == sl
                &&& worth(m.price, s[0].take_profit, s[0].stop_loss) == Some(s[0].risk_reward)
                &&& s[0].confidence == confidence
                &&& s[0].reasons == reasons
            }
        },
{
}

// ── The setups ────────────────────────────────────────────────────

/// A sweep is offered just where the liquidity on its other side was swept and
/// the RSI is stretched (below 38 for a long, above 62 for a short) or the
/// structure scores above 0.5, and it reaches the floors.  It goes for four
/// times the ATR against one, with a confidence of 0.92 at such a score and of
/// 0.83 else.
pub proof fn sweeps_are_offered_where_confirmed(
    symbol: Seq<char>,
    b: Seq<Bar>,
    capital: int,
    kelly_f: int,
    cfg: EngineConfig,
    dir: Direction,
)
    requires
        b.len() >= 55,
        given(symbol, b, capital, kelly_f, cfg) is Some,
    ensures
        ({
            let all = given(symbol, b, capital, kelly_f, cfg)->0;
            let price = b.last().close;
            let rsi = rsi_of(closes_of(b), 14)->Ok_0;
            let atr = atr_of(b, 14)->Ok_0;
            let score = context(b, price)->0.score;
            let tp = ahead(price, dir, product(atr, dec(40, 1)));
            let sl = behind(price, dir, product(atr, dec(10, 1)));
            let confidence = if score > dec(5, 1) {
                dec(92, 2)
            } else {
                dec(83, 2)
            };
            let reasons = context(b, price)->0.reasons.push("RSI "@ + fixed(rsi, 1));
            &&& offered(all, SetupKind::LiquiditySweepReversal, dir) <==> {
                &&& liquidity_sweep(b) == Some(dir)
                &&& (dir == Direction::Long && rsi < dec(38, 0)) || (dir == Direction::Short && rsi
                    > dec(62, 0)) || score > dec(5, 1)
                &&& reaches(price, tp, sl, confidence, cfg)
            }
            &&& told(all, SetupKind::LiquiditySweepReversal, dir, price, tp, sl, confidence, reasons)
        }),
{
    let m = readings(b, capital, kelly_f)->0;
    let kind = SetupKind::LiquiditySweepReversal;
    lemma_market(b, capital, kelly_f);
    lemma_kind(m, b, symbol, cfg, kind, dir);
    let confidence = if m.smc.score > dec(5, 1) {
        dec(92, 2)
    } else {
        dec(83, 2)
    };
    let tp = ahead(m.price, dir, product(m.atr, dec(40, 1)));
    let sl = behind(m.price, dir, product(m.atr, dec(10, 1)));
    lemma_ahead(m, dir, dec(40, 1), dec(10, 1));
    lemma_single(m, symbol, cfg, dir, kind, tp, sl, confidence, m.smc.reasons.push("RSI "@ + fixed(m.rsi, 1)));
    let part = sweep(m, symbol, cfg)->0;
    assert(offered(part, kind, dir) <==> part.len() == 1 && part[0].direction == dir);
}

/// A reversal is offered just where the character changed to its direction, the
/// MACD histogram is on its side, and it reaches the floors.  It goes for 4.5
/// times the ATR against 1.5, with a confidence of 0.91 where the structure
/// scores above 0.4 and of 0.82 else.
pub proof fn reversals_are_offered_where_confirmed(
    symbol: Seq<char>,
    b: Seq<Bar>,
    capital: int,
    kelly_f: int,
    cfg: EngineConfig,
    dir: Direction,
)
    requires
        b.len() >= 55,
        given(symbol, b, capital, kelly_f, cfg) is Some,
    ensures
        ({
            let all = given(symbol, b, capital, kelly_f, cfg)->0;
            let price = b.last().close;
            let histogram = macd_of(closes_of(b))->Ok_0.histogram;
            let atr = atr_of(b, 14)->Ok_0;
            let score = context(b, price)->0.score;
            let tp = ahead(price, dir, product(atr, dec(45, 1)));
            let sl = behind(price, dir, product(atr, dec(15, 1)));
            let confidence = if score > dec(4, 1) {
                dec(91, 2)
            } else {
                dec(82, 2)
            };
            let reasons = seq![
                dir.name() + " Change of Character"@,
                "MACD histogram "@ + fixed(histogram, 6),
                "RSI "@ + fixed(rsi_of(closes_of(b), 14)->Ok_0, 1),
                "SMC score "@ + fixed(product(score, dec(100, 0))->0, 0) + "%"@,
            ];
            &&& offered(all, SetupKind::ChangeOfCharacter, dir) <==> {
                &&& character_change(b) == Some(dir)
                &&& dir == Direction::Long ==> histogram > 0
                &&& dir == Direction::Short ==> histogram < 0
                &&& reaches(price, tp, sl, confidence, cfg)
            }
            &&& told(all, SetupKind::ChangeOfCharacter, dir, price, tp, sl, confidence, reasons)
        }),
{
    let m = readings(b, capital, kelly_f)->0;
    let kind = SetupKind::ChangeOfCharacter;
    lemma_market(b, capital, kelly_f);
    lemma_kind(m, b, symbol, cfg, kind, dir);
    let confidence = if m.smc.score > dec(4, 1) {
        dec(91, 2)
    } else {
        dec(82, 2)
    };
    let tp = ahead(m.price, dir, product(m.atr, dec(45, 1)));
    let sl = behind(m.price, dir, product(m.atr, dec(15, 1)));
    lemma_ahead(m, dir, dec(45, 1), dec(15, 1));
    let reasons = seq![
        dir.name() + " Change of Character"@,
        "MACD histogram "@ + fixed(m.macd->0.histogram, 6),
        "RSI "@ + fixed(m.rsi, 1),
        "SMC score "@ + fixed(product(m.smc.score, dec(100, 0))->0, 0) + "%"@,
    ];
    lemma_single(m, symbol, cfg, dir, kind, tp, sl, confidence, reasons);
    let part = reversal(m, symbol, cfg)->0;
    assert(offered(part, kind, dir) <==> part.len() == 1 && part[0].direction == dir);
}

/// A breakout is offered just where the structure broke in its direction, the
/// average of 20 is on its side of the average of 50 and the price beyond that
/// of 20, and it reaches the floors.  It goes for 3.5 times the ATR against
/// 1.2, with a confidence of 0.89 where the structure scores above 0.3 and of
/// 0.79 else.
pub proof fn breakouts_are_offered_where_aligned(
    symbol: Seq<char>,
    b: Seq<Bar>,
    capital: int,
    kelly_f: int,
    cfg: EngineConfig,
    dir: Direction,
)
    requires
        b.len() >= 55,
        given(symbol, b, capital, kelly_f, cfg) is Some,
    ensures
        ({
            let all = given(symbol, b, capital, kelly_f, cfg)->0;
            let price = b.last().close;
            let fast = last_of(ema_of(closes_of(b), 20))->Ok_0;
            let slow = last_of(ema_of(closes_of(b), 50))->Ok_0;
            let atr = atr_of(b, 14)->Ok_0;
            let score = context(b, price)->0.score;
            let tp = ahead(price, dir, product(atr, dec(35, 1)));
            let sl = behind(price, dir, product(atr, dec(12, 1)));
            let confidence = if score > dec(3, 1) {
                dec(89, 2)
            } else {
                dec(79, 2)
            };
            let reasons = seq![
                dir.name() + " Break of Structure"@,
                "EMA20 "@ + fixed(fast, 4) + (if fast > slow {
                    " > EMA50 "@
                } else {
                    " < EMA50 "@
                }) + fixed(slow, 4),
                "VWAP "@ + fixed(fair_price(b), 4),
            ];
            &&& offered(all, SetupKind::BreakOfStructure, dir) <==> {
                &&& structure_break(b) == Some(dir)
                &&& dir == Direction::Long ==> slow < fast < price
                &&& dir == Direction::Short ==> price < fast < slow
                &&& reaches(price, tp, sl, confidence, cfg)
            }
            &&& told(all, SetupKind::BreakOfStructure, dir, price, tp, sl, confidence, reasons)
        }),
{
    let m = readings(b, capital, kelly_f)->0;
    let kind = SetupKind::BreakOfStructure;
    lemma_market(b, capital, kelly_f);
    lemma_kind(m, b, symbol, cfg, kind, dir);
    let confidence = if m.smc.score > dec(3, 1) {
        dec(89, 2)
    } else {
        dec(79, 2)
    };
    let tp = ahead(m.price, dir, product(m.atr, dec(35, 1)));
    let sl = behind(m.price, dir, product(m.atr, dec(12, 1)));
    lemma_ahead(m, dir, dec(35, 1), dec(12, 1));
    let sign = if m.ema20 > m.ema50 {
        " > EMA50 "@
    } else {
        " < EMA50 "@
    };
    let reasons = seq![
        dir.name() + " Break of Structure"@,
        "EMA20 "@ + fixed(m.ema20, 4) + sign + fixed(m.ema50, 4),
        "VWAP "@ + fixed(m.vwap, 4),
    ];
    lemma_single(m, symbol, cfg, dir, kind, tp, sl, confidence, reasons);
    let part = breakout(m, symbol, cfg)->0;
    assert(offered(part, kind, dir) <==> part.len() == 1 && part[0].direction == dir);
}

/// A divergence is offered just where price and RSI diverge in its direction and
/// it reaches the floors.  It goes for three times the ATR against 1.5, with a
/// confidence of 0.85 where the structure scores above 0.3 and of 0.77 else.
pub proof fn divergences_are_offered_where_seen(
    symbol: Seq<char>,
    b: Seq<Bar>,
    capital: int,
    kelly_f: int,
    cfg: EngineConfig,
    dir: Direction,
)
    requires
        b.len() >= 55,
        given(symbol, b, capital, kelly_f, cfg) is Some,
    ensures
        ({
            let all = given(symbol, b, capital, kelly_f, cfg)->0;
            let price = b.last().close;
            let atr = atr_of(b, 14)->Ok_0;
            let score = context(b, price)->0.score;
            let tp = ahead(price, dir, product(atr, dec(30, 1)));
            let sl = behind(price, dir, product(atr, dec(15, 1)));
            let confidence = if score > dec(3, 1) {
                dec(85, 2)
            } else {
                dec(77, 2)
            };
            let reasons = seq![
                dir.name() + " RSI Divergence"@,
                "RSI "@ + fixed(rsi_of(closes_of(b), 14)->Ok_0, 1),
                "VWAP "@ + fixed(fair_price(b), 4),
            ];
            &&& offered(all, SetupKind::RsiDivergence, dir) <==> {
                &&& divergence_of(b, 14) == Some(dir)
                &&& reaches(price, tp, sl, confidence, cfg)
            }
            &&& told(all, SetupKind::RsiDivergence, dir, price, tp, sl, confidence, reasons)
        }),
{
    let m = readings(b, capital, kelly_f)->0;
    let kind = SetupKind::RsiDivergence;
    lemma_market(b, capital, kelly_f);
    lemma_kind(m, b, symbol, cfg, kind, dir);
    let confidence = if m.smc.score > dec(3, 1) {
        dec(85, 2)
    } else {
        dec(77, 2)
    };
    let tp = ahead(m.price, dir, product(m.atr, dec(30, 1)));
    let sl = behind(m.price, dir, product(m.atr, dec(15, 1)));
    lemma_ahead(m, dir, dec(30, 1), dec(15, 1));
    let reasons = seq![
        dir.name() + " RSI Divergence"@,
        "RSI "@ + fixed(m.rsi, 1),
        "VWAP "@ + fixed(m.vwap, 4),
    ];
    lemma_single(m, symbol, cfg, dir, kind, tp, sl, confidence, reasons);
    let part = divergent(m, symbol, cfg)->0;
    assert(offered(part, kind, dir) <==> part.len() == 1 && part[0].direction == dir);
}

/// A surge is offered just where the volume is at least three times its mean,
/// long above the average of 20 and short at or below it, and it reaches the
/// floors.  It goes for 2.5 times the ATR against one, with a confidence of 0.75
/// and a 25th of the spike, but at most 0.93.
pub proof fn surges_are_offered_where_volume_spikes(
    symbol: Seq<char>,
    b: Seq<Bar>,
    capital: int,
    kelly_f: int,
    cfg: EngineConfig,
    dir: Direction,
)
    requires
        b.len() >= 55,
        given(symbol, b, capital, kelly_f, cfg) is Some,
    ensures
        ({
            let all = given(symbol, b, capital, kelly_f, cfg)->0;
            let price = b.last().close;
            let fast = last_of(ema_of(closes_of(b), 20))->Ok_0;
            let spike = volume_spike(b)->0;
            let atr = atr_of(b, 14)->Ok_0;
            let tp = ahead(price, dir, product(atr, dec(25, 1)));
            let sl = behind(price, dir, product(atr, dec(10, 1)));
            let raised = o_sum(Some(dec(75, 2)), quotient(spike, dec(25, 0)));
            let confidence = if raised->0 < dec(93, 2) {
                raised->0
            } else {
                dec(93, 2)
            };
            let reasons = seq![
                "Volume spike "@ + fixed(spike, 1) + "× average"@,
                "Price vs EMA20: "@ + fixed(price, 4) + " vs "@ + fixed(fast, 4),
                "RSI "@ + fixed(rsi_of(closes_of(b), 14)->Ok_0, 1),
            ];
            &&& volume_spike(b) is Some
            &&& offered(all, SetupKind::VolumeBreakout, dir) <==> {
                &&& spike >= dec(3, 0)
                &&& dir == Direction::Long <==> price > fast
                &&& reaches(price, tp, sl, confidence, cfg)
            }
            &&& told(all, SetupKind::VolumeBreakout, dir, price, tp, sl, confidence, reasons)
        }),
{
    let m = readings(b, capital, kelly_f)->0;
    let kind = SetupKind::VolumeBreakout;
    lemma_market(b, capital, kelly_f);
    lemma_kind(m, b, symbol, cfg, kind, dir);
    let spike = volume_spike(b)->0;
    let raised = o_sum(Some(dec(75, 2)), quotient(spike, dec(25, 0)));
    let confidence = if raised->0 < dec(93, 2) {
        raised->0
    } else {
        dec(93, 2)
    };
    let tp = ahead(m.price, dir, product(m.atr, dec(25, 1)));
    let sl = behind(m.price, dir, product(m.atr, dec(10, 1)));
    lemma_ahead(m, dir, dec(25, 1), dec(10, 1));
    let reasons = seq![
        "Volume spike "@ + fixed(spike, 1) + "× average"@,
        "Price vs EMA20: "@ + fixed(m.price, 4) + " vs "@ + fixed(m.ema20, 4),
        "RSI "@ + fixed(m.rsi, 1),
    ];
    lemma_single(m, symbol, cfg, dir, kind, tp, sl, confidence, reasons);
    let part = surge(m, symbol, cfg, volume_spike(b))->0;
    assert(offered(part, kind, dir) <==> part.len() == 1 && part[0].direction == dir);
}

/// The confidence of a bounce off a block: 0.76, a 300th of its strength up to
/// 30, and 0.08 where the structure scores above 0.4, but at most 0.96 for a
/// long and 0.95 for a short.
pub open spec fn trust(x: Block, score: int) -> Option<int> {
    let strength = if x.strength < dec(30, 0) {
        x.strength
    } else {
        dec(30, 0)
    };
    let bonus = if score > dec(4, 1) {
        dec(8, 2)
    } else {
        0
    };
    let most = if x.dir == Direction::Long {
        dec(96, 2)
    } else {
        dec(95, 2)
    };
    match o_sum(o_sum(Some(dec(76, 2)), quotient(strength, dec(300, 0))), Some(bonus)) {
        Some(t) => Some(
            if t < most {
                t
            } else {
                most
            },
        ),
        None => None,
    }
}

/// The edge of a block that a price coming back to it meets last.
pub open spec fn far_edge(x: Block) -> int {
    match x.dir {
        Direction::Long => x.low,
        Direction::Short => x.high,
    }
}

/// Does a price with this RSI bounce off a block: is it within 0.6 % of it, is
/// the RSI below 42 (for a short above 58), and are the floors reached by 3.2
/// times the ATR against half of it beyond the block?
pub open spec fn bounces_off(
    x: Block,
    price: int,
    rsi: int,
    atr: int,
    score: int,
    cfg: EngineConfig,
) -> bool {
    &&& x.contains(price, dec(6, 1)) == Some(true)
    &&& x.dir == Direction::Long ==> rsi < dec(42, 0)
    &&& x.dir == Direction::Short ==> rsi > dec(58, 0)
    &&& reaches(
        price,
        ahead(price, x.dir, product(atr, dec(32, 1))),
        behind(far_edge(x), x.dir, product(atr, dec(5, 1))),
        trust(x, score)->0,
        cfg,
    )
}

/// Is an idea the bounce off a block?
pub open spec fn is_bounce(i: Idea, x: Block, price: int, atr: int, score: int) -> bool {
    &&& i.kind == SetupKind::OrderBlockBounce
    &&& i.direction == x.dir
    &&& i.entry == price
    &&& Some(i.take_profit) == ahead(price, x.dir, product(atr, dec(32, 1)))
    &&& Some(i.stop_loss) == behind(far_edge(x), x.dir, product(atr, dec(5, 1)))
    &&& worth(price, i.take_profit, i.stop_loss) == Some(i.risk_reward)
    &&& Some(i.confidence) == trust(x, score)
}

proof fn lemma_bounce(m: Readings, symbol: Seq<char>, cfg: EngineConfig, x: Block)
    ensures
        bounce(m, symbol, cfg, x) matches Some(s) ==> {
            &&& s.len() <= 1
            &&& s.len() == 1 <==> bounces_off(x, m.price, m.rsi, m.atr, m.smc.score, cfg)
            &&& s.len() == 1 ==> is_bounce(s[0], x, m.price, m.atr, m.smc.score)
        },
{
}

proof fn lemma_block_of(
    m: Readings,
    symbol: Seq<char>,
    cfg: EngineConfig,
    n: int,
    k: int,
) -> (j: int)
    requires
        0 <= n <= m.smc.order_blocks.len(),
        bounces(m, symbol, cfg, n) is Some,
        0 <= k < bounces(m, symbol, cfg, n)->0.len(),
    ensures
        0 <= j < n,
        ({
            let x = m.smc.order_blocks[j];
            &&& bounces_off(x, m.price, m.rsi, m.atr, m.smc.score, cfg)
            &&& is_bounce(
                bounces(m, symbol, cfg, n)->0[k],
                x,
                m.price,
                m.atr,
                m.smc.score,
            )
        }),
    decreases n,
{
    if n > 0 {
        let before = bounces(m, symbol, cfg, n - 1)->0;
        lemma_bounce(m, symbol, cfg, m.smc.order_blocks[n - 1]);
        if k < before.len() {
            lemma_block_of(m, symbol, cfg, n - 1, k)
        } else {
            n - 1
        }
    } else {
        0
    }
}

proof fn lemma_bounce_of(
    m: Readings,
    symbol: Seq<char>,
    cfg: EngineConfig,
    n: int,
    j: int,
) -> (k: int)
    requires
        0 <= j < n <= m.smc.order_blocks.len(),
        bounces(m, symbol, cfg, n) is Some,
        bounces_off(m.smc.order_blocks[j], m.price, m.rsi, m.atr, m.smc.score, cfg),
    ensures
        0 <= k < bounces(m, symbol, cfg, n)->0.len(),
        is_bounce(
            bounces(m, symbol, cfg, n)->0[k],
            m.smc.order_blocks[j],
            m.price,
            m.atr,
            m.smc.score,
        ),
    decreases n,
{
    let before = bounces(m, symbol, cfg, n - 1)->0;
    lemma_bounce(m, symbol, cfg, m.smc.order_blocks[n - 1]);
    if j < n - 1 {
        lemma_bounce_of(m, symbol, cfg, n - 1, j)
    } else {
        before.len() as int
    }
}

/// A bounce is offered just where some order block is there for it to bounce
/// off, and each that is offered bounces off one.
pub proof fn bounces_are_offered_at_blocks(
    symbol: Seq<char>,
    b: Seq<Bar>,
    capital: int,
    kelly_f: int,
    cfg: EngineConfig,
    dir: Direction,
)
    requires
        b.len() >= 55,
        given(symbol, b, capital, kelly_f, cfg) is Some,
    ensures
        ({
            let all = given(symbol, b, capital, kelly_f, cfg)->0;
            let blocks = order_blocks(b)->0;
            let price = b.last().close;
            let rsi = rsi_of(closes_of(b), 14)->Ok_0;
            let atr = atr_of(b, 14)->Ok_0;
            let score = context(b, price)->0.score;
            &&& offered(all, SetupKind::OrderBlockBounce, dir) <==> exists|j: int|
                0 <= j < blocks.len() && (#[trigger] blocks[j]).dir == dir && bounces_off(
                    blocks[j],
                    price,
                    rsi,
                    atr,
                    score,
                    cfg,
                )
            &&& forall|k: int|
                0 <= k < all.len() && (#[trigger] all[k]).kind == SetupKind::OrderBlockBounce
                    ==> exists|j: int|
                    0 <= j < blocks.len() && #[trigger] is_bounce(
                        all[k],
                        blocks[j],
                        price,
                        atr,
                        score,
                    ) && bounces_off(blocks[j], price, rsi, atr, score, cfg)
        }),
{
    let m = readings(b, capital, kelly_f)->0;
    let kind = SetupKind::OrderBlockBounce;
    lemma_market(b, capital, kelly_f);
    lemma_kind(m, b, symbol, cfg, kind, dir);
    let all = given(symbol, b, capital, kelly_f, cfg)->0;
    let blocks = m.smc.order_blocks;
    let n = blocks.len() as int;
    let part = bounces(m, symbol, cfg, n)->0;
    if offered(part, kind, dir) {
        let k = choose|k: int|
            0 <= k < part.len() && (#[trigger] part[k]).kind == kind && part[k].direction == dir;
        let j = lemma_block_of(m, symbol, cfg, n, k);
        assert(blocks[j].dir == dir);
    }
    if exists|j: int|
        0 <= j < blocks.len() && (#[trigger] blocks[j]).dir == dir && bounces_off(
            blocks[j],
            m.price,
            m.rsi,
            m.atr,
            m.smc.score,
            cfg,
        ) {
        let j = choose|j: int|
            0 <= j < blocks.len() && (#[trigger] blocks[j]).dir == dir && bounces_off(
                blocks[j],
                m.price,
                m.rsi,
                m.atr,
                m.smc.score,
                cfg,
            );
        let k = lemma_bounce_of(m, symbol, cfg, n, j);
        assert(part[k].kind == kind);
    }
    assert forall|k: int|
        0 <= k < all.len() && (#[trigger] all[k]).kind == kind implies exists|j: int|
        0 <= j < blocks.len() && #[trigger] is_bounce(
            all[k],
            blocks[j],
            m.price,
            m.atr,
            m.smc.score,
        ) && bounces_off(blocks[j], m.price, m.rsi, m.atr, m.smc.score, cfg) by {
        let at = part.index_of(all[k]);
        let j = lemma_block_of(m, symbol, cfg, n, at);
        assert(is_bounce(all[k], blocks[j], m.price, m.atr, m.smc.score));
    }
}

// ── The choice ────────────────────────────────────────────────────

/// Does one idea at a place come before another: is it more confident, or as
/// confident and given earlier?
pub open spec fn before(x: Idea, y: Idea, at: int, other: int) -> bool {
    x.confidence > y.confidence || (x.confidence == y.confidence && at < other)
}

/// Are some ideas the strongest of all, at these places: as many as there are
/// up to the limit, each one of all, the more confident first, and none more
/// confident left out?
pub open spec fn picks(all: Seq<Idea>, s: Seq<Idea>, places: Seq<int>, most: int) -> bool {
    &&& s.len() <= all.len() && s.len() <= most
    &&& s.len() == all.len() || s.len() == most
    &&& places.len() == s.len()
    &&& forall|i: int|
        0 <= i < s.len() ==> 0 <= #[trigger] places[i] < all.len() && s[i] == all[places[i]]
    &&& forall|i: int, j: int|
        0 <= i < j < s.len() ==> before(s[i], s[j], #[trigger] places[i], #[trigger] places[j])
    &&& forall|k: int, i: int|
        0 <= k < all.len() && 0 <= i < s.len() && !places.contains(k) ==> (
        #[trigger] all[k]).confidence <= (#[trigger] s[i]).confidence
}

proof fn lemma_strongest(all: Seq<Idea>, most: nat) -> (places: Seq<int>)
    ensures
        picks(all, strongest(all, most), places, most as int),
{
    let s = strongest(all, most);
    let keys = all.map_values(|i: Idea| i.confidence);
    ranking_is_stable_and_complete(keys);
    let r = ranking(keys);
    let places = r.take(s.len() as int);
    assert forall|i: int| 0 <= i < s.len() implies 0 <= #[trigger] places[i] < all.len() && s[i]
        == all[places[i]] by {
        assert(places[i] == r[i]);
    }
    assert forall|i: int, j: int| 0 <= i < j < s.len() implies before(
        s[i],
        s[j],
        #[trigger] places[i],
        #[trigger] places[j],
    ) by {
        assert(outranks(keys, r[i], r[j]));
        assert(s[i] == all[r[i]] && s[j] == all[r[j]]);
    }
    assert forall|k: int, i: int|
        0 <= k < all.len() && 0 <= i < s.len() && !places.contains(k) implies (
    #[trigger] all[k]).confidence <= (#[trigger] s[i]).confidence by {
        assert(r.contains(k));
        let a = r.index_of(k);
        if a < s.len() {
            assert(places[a] == k);
        }
        assert(outranks(keys, r[i], r[a]));
        assert(places[i] == r[i]);
    }
    places
}

/// The signals of fewer than 55 candles are none.  Else they are given ideas,
/// each at one place of its own, the more confident before the less and of two
/// alike the earlier first; as many as there are, up to the limit.
pub proof fn the_strongest_are_chosen(
    symbol: Seq<char>,
    b: Seq<Bar>,
    capital: int,
    kelly_f: int,
    cfg: EngineConfig,
) -> (places: Seq<int>)
    ensures
        b.len() < 55 ==> chosen(symbol, b, capital, kelly_f, cfg) == Some(Seq::<Idea>::empty()),
        b.len() >= 55 ==> match given(symbol, b, capital, kelly_f, cfg) {
            Some(all) => chosen(symbol, b, capital, kelly_f, cfg) is Some && picks(
                all,
                chosen(symbol, b, capital, kelly_f, cfg)->0,
                places,
                cfg.max_signals as int,
            ),
            None => chosen(symbol, b, capital, kelly_f, cfg) is None,
        },
{
    match given(symbol, b, capital, kelly_f, cfg) {
        Some(all) => lemma_strongest(all, cfg.max_signals as nat),
        None => Seq::empty(),
    }
}

/// Every given idea is for the symbol in upper case, at the last close, and of
/// the trade size: the Kelly part of the capital, but at least one and at most
/// a tenth of the capital.
pub proof fn ideas_are_of_the_trade_size(
    symbol: Seq<char>,
    b: Seq<Bar>,
    capital: int,
    kelly_f: int,
    cfg: EngineConfig,
)
    requires
        b.len() >= 55,
    ensures
        chosen(symbol, b, capital, kelly_f, cfg) matches Some(s) ==> {
            &&& product(capital, kelly_f) matches Some(part)
            &&& product(capital, dec(10, 2)) matches Some(most)
            &&& forall|i: int|
                0 <= i < s.len() ==> {
                    &&& (#[trigger] s[i]).symbol == unicode_upper(symbol)
                    &&& s[i].entry == b.last().close
                    &&& part >= most || one() >= most ==> s[i].size_usd == most
                    &&& one() <= part < most ==> s[i].size_usd == part
                    &&& part < one() < most ==> s[i].size_usd == one()
                }
        },
{
    if chosen(symbol, b, capital, kelly_f, cfg) is Some {
        signals_qualify(symbol, b, capital, kelly_f, cfg);
        lemma_market(b, capital, kelly_f);
    }
}

// ── The volume spike ──────────────────────────────────────────────

proof fn lemma_volumes(b: Seq<Bar>, n: int)
    requires
        0 <= n <= b.len(),
        adds_exactly(0, volumes(b)),
    ensures
        total_volume(b, n) == Some(sum_of(volumes(b).take(n))),
    decreases n,
{
    if n > 0 {
        lemma_volumes(b, n - 1);
        sum_stays_exact(0, volumes(b), n - 1);
    }
}

/// The spike is the volume of the last candle by the mean volume of the 20
/// before it, and one where these had no volume.
pub proof fn the_spike_is_volume_by_mean(b: Seq<Bar>)
    requires
        b.len() >= 21,
        adds_exactly(0, volumes(b.subrange(b.len() - 21, b.len() - 1))),
    ensures
        ({
            let sum = sum_of(volumes(b.subrange(b.len() - 21, b.len() - 1)));
            match quotient(sum, 20 * one()) {
                Some(mean) => volume_spike(b) == if mean > 0 {
                    quotient(b.last().volume, mean)
                } else {
                    Some(one())
                },
                None => volume_spike(b) is None,
            }
        }),
{
    lemma_pow10_28();
    let w = b.subrange(b.len() - 21, b.len() - 1);
    lemma_volumes(w, 20);
    assert(volumes(w).take(20) =~= volumes(w));
    assert(dec(20, 0) == 20 * one());
}

} // verus!
