//! What may be traded and how much, told by the numbers alone: the limits of
//! [`crate::risk`], the orders of [`crate::paper`], the scores of
//! [`crate::scanner`] and the readings of [`crate::types`].

use vstd::prelude::*;
use vstd::string::*;

use crate::decimal::{
    dec, exact_results_stand, lemma_pow10_28, lemma_pow10_adds, nearest_is_exact, nearest_is_there,
    nearest_keeps_bounds, one, pow10, product, quotient, representable, rounding_keeps_order, sum,
};
use crate::exchange::{Refusal, Ticker};
use crate::indicators::{atr_of, closes_of, ema_of, last_of};
use crate::paper::settled;
use crate::risk::{position, RiskManager};
use crate::scanner::{composite_of, score_of, scores_of, trend_of, volatility_of, worthy, Row};
use crate::smc::context;
use crate::text::holds;
use crate::types::{distance_pct, grade_of, Bar, OrderRequest, OrderSide, Rated};

verus! {

// ── Limits ────────────────────────────────────────────────────────

/// Trading is permitted just where the breaker is not tripped, the day has not
/// lost more than its part of the capital, and the drawdown is not beyond its
/// limit; each limit may be reached just so.
pub proof fn trading_is_permitted_within_the_limits(
    m: RiskManager,
    capital: int,
    daily_pnl: int,
    drawdown: int,
)
    ensures
        m.verdict(capital, daily_pnl, drawdown) is None <==> {
            &&& !m.halted()
            &&& product(capital, m.max_daily_loss_pct@) matches Some(cap) && daily_pnl + cap >= 0
            &&& drawdown <= m.max_drawdown_pct@
        },
{
}

/// A worse day or a deeper drawdown never lifts a refusal.
pub proof fn worse_numbers_stay_refused(
    m: RiskManager,
    capital: int,
    daily_pnl: int,
    drawdown: int,
    worse_pnl: int,
    deeper: int,
)
    requires
        m.verdict(capital, daily_pnl, drawdown) is Some,
        worse_pnl <= daily_pnl,
        deeper >= drawdown,
    ensures
        m.verdict(capital, worse_pnl, deeper) is Some,
{
}

/// A position is the Kelly part of the capital where that is at least one and
/// at most the cap, one where it is less and the cap allows it, and else the
/// cap.
pub proof fn positions_are_capped(capital: int, kelly_fraction: int, max_pct: int)
    ensures
        position(capital, kelly_fraction, max_pct) matches Some(size) ==> {
            let part = product(capital, kelly_fraction)->0;
            let cap = product(capital, max_pct)->0;
            &&& product(capital, kelly_fraction) is Some && product(capital, max_pct) is Some
            &&& one() <= part <= cap ==> size == part
            &&& part < one() <= cap ==> size == one()
            &&& cap < one() || cap < part ==> size == cap
        },
{
}

// ── Paper orders ──────────────────────────────────────────────────

/// A buy takes its amount from the balance and is refused where that is short
/// of it; a sale leaves the balance.
pub proof fn buys_take_their_amount(balance: int, req: OrderRequest, price: int)
    requires
        quotient(req.quote_qty@, price) is Some,
    ensures
        req.side == OrderSide::Sell ==> settled(balance, req, price) == Ok::<int, Refusal>(balance),
        req.side == OrderSide::Buy && balance < req.quote_qty@ ==> settled(balance, req, price)
            == Err::<int, Refusal>(Refusal::InsufficientBalance),
        req.side == OrderSide::Buy && balance >= req.quote_qty@ && representable(
            balance - req.quote_qty@,
        ) ==> settled(balance, req, price) == Ok::<int, Refusal>(balance - req.quote_qty@),
{
    if representable(balance - req.quote_qty@) {
        nearest_is_exact(balance - req.quote_qty@, 1);
    }
}

// ── Scores ────────────────────────────────────────────────────────

/// Is a coin traded enough, and none of the leveraged tokens?
pub open spec fn eligible(t: Ticker, min_volume_usd: int) -> bool {
    t.quote_volume >= min_volume_usd && !holds(t.symbol, "UP"@) && !holds(t.symbol, "DOWN"@)
        && !holds(t.symbol, "BULL"@) && !holds(t.symbol, "BEAR"@)
}

proof fn lemma_worthy_prefix(s: Seq<Ticker>, t: Ticker, min_volume_usd: int, n: int)
    requires
        n <= s.len(),
    ensures
        worthy(s.push(t), min_volume_usd, n) == worthy(s, min_volume_usd, n),
    decreases n,
{
    if n > 0 {
        lemma_worthy_prefix(s, t, min_volume_usd, n - 1);
        assert(s.push(t)[n - 1] == s[n - 1]);
    }
}

/// The coins that are scored are just the eligible ones, in their order.
pub proof fn eligible_coins_are_scored(s: Seq<Ticker>, min_volume_usd: int)
    ensures
        worthy(s, min_volume_usd, s.len() as int) == s.filter(
            |t: Ticker| eligible(t, min_volume_usd),
        ),
    decreases s.len(),
{
    reveal(Seq::filter);
    if s.len() > 0 {
        let r = s.drop_last();
        eligible_coins_are_scored(r, min_volume_usd);
        lemma_worthy_prefix(r, s.last(), min_volume_usd, r.len() as int);
        assert(r.push(s.last()) =~= s);
    }
}

/// The volatility is the ATR in percent of the price: where the steps are
/// exact, it times the price is a hundred times the ATR.
pub proof fn volatility_is_the_range_by_the_price(b: Seq<Bar>, share: int, v: int)
    requires
        b.len() > 0,
        b.last().close > 0,
        atr_of(b, 14) is Ok,
        representable(share),
        representable(v),
        share * b.last().close == atr_of(b, 14)->Ok_0 * one(),
        v == 100 * share,
    ensures
        volatility_of(b) == Some(v),
        v * b.last().close == (100 * one()) * atr_of(b, 14)->Ok_0,
{
    lemma_pow10_28();
    let price = b.last().close;
    let atr = atr_of(b, 14)->Ok_0;
    exact_results_stand(atr, price, share);
    assert(share * dec(100, 0) == v * one()) by (nonlinear_arith)
        requires
            dec(100, 0) == 100 * one(),
            v == 100 * share,
    ;
    exact_results_stand(share, dec(100, 0), v);
    assert(v * price == (100 * one()) * atr) by (nonlinear_arith)
        requires
            share * price == atr * one(),
            v == 100 * share,
    ;
}

/// The trend is up just where the price is above its average of 20 and that
/// above the one of 50.
pub proof fn the_trend_is_up_above_both_averages(b: Seq<Bar>)
    requires
        b.len() >= 50,
    ensures
        trend_of(b) matches Some(up) ==> {
            let fast = last_of(ema_of(closes_of(b), 20));
            let slow = last_of(ema_of(closes_of(b), 50));
            &&& fast is Ok && slow is Ok
            &&& up <==> slow->Ok_0 < fast->Ok_0 < b.last().close
        },
{
}

/// A part in percent of a number within 0 and 1 is within a unit of the last
/// place of the exact one.
proof fn lemma_percent(x: int, pct: int)
    requires
        0 <= x <= one(),
        0 <= pct <= 100,
    ensures
        product(x, dec(pct, 2)) matches Some(r) && 0 <= r <= one() && pct * x - 100 <= 100 * r
            <= pct * x + 100,
{
    lemma_pow10_28();
    assert(pow10(0) == 1);
    assert(pow10(2) == 100) by {
        reveal_with_fuel(pow10, 3);
    }
    lemma_pow10_adds(2, 26);
    let e = one();
    let c = pow10(26);
    assert(e == 100 * c);
    let num = x * (pct * c);
    assert(0 <= num <= (1 * e) * e) by (nonlinear_arith)
        requires
            num == x * (pct * c),
            0 <= x <= e,
            0 <= pct <= 100,
            e == 100 * c,
            c > 0,
    ;
    nearest_is_there(num, e, 1);
    nearest_keeps_bounds(num, e, 1);
    let r = product(x, dec(pct, 2))->0;
    let q = (pct * x) / 100;
    assert(0 <= q <= e && 100 * q <= pct * x < 100 * (q + 1)) by (nonlinear_arith)
        requires
            q == (pct * x) / 100,
            0 <= x <= e,
            0 <= pct <= 100,
    ;
    assert(representable(q)) by {
        assert(dec(q, 28) == q);
    }
    assert(representable(q + 1)) by {
        assert(dec(q + 1, 28) == q + 1);
    }
    assert(num == (pct * x) * c) by (nonlinear_arith)
        requires
            num == x * (pct * c),
    ;
    assert(q * e <= num <= (q + 1) * e) by (nonlinear_arith)
        requires
            num == (pct * x) * c,
            100 * q <= pct * x < 100 * (q + 1),
            e == 100 * c,
            c > 0,
    ;
    nearest_is_exact(q, e);
    nearest_is_exact(q + 1, e);
    rounding_keeps_order(q * e, num, e);
    rounding_keeps_order(num, (q + 1) * e, e);
}

proof fn lemma_small_sum(a: int, b: int)
    requires
        0 <= a <= 3 * one(),
        0 <= b <= one(),
    ensures
        sum(a, b) == Some(a + b),
{
    assert(pow10(0) == 1);
    assert(representable(a + b)) by {
        assert(dec(a + b, 28) == a + b);
    }
    nearest_is_exact(a + b, 1);
}

/// The composite is 30 % of the volume's share, 20 % of the volatility's, 20 %
/// for an upward trend and 30 % of the structure's score, to 26 decimals.
pub proof fn the_composite_weighs_its_parts(vol: int, vola: int, trend: bool, smc: int)
    requires
        0 <= vol <= one(),
        0 <= vola <= one(),
        0 <= smc <= one(),
    ensures
        composite_of(vol, vola, trend, smc) matches Some(c) && {
            let up = if trend {
                one()
            } else {
                0
            };
            let exact = 30 * vol + 20 * vola + 20 * up + 30 * smc;
            exact - 400 <= 100 * c <= exact + 400
        },
{
    let up = if trend {
        one()
    } else {
        0
    };
    lemma_percent(vol, 30);
    lemma_percent(vola, 20);
    lemma_percent(up, 20);
    lemma_percent(smc, 30);
    let a = product(vol, dec(30, 2))->0;
    let b = product(vola, dec(20, 2))->0;
    let c = product(up, dec(20, 2))->0;
    let d = product(smc, dec(30, 2))->0;
    lemma_small_sum(a, b);
    lemma_small_sum(a + b, c);
    lemma_small_sum(a + b + c, d);
}

/// A part of a whole, but at most one.
pub open spec fn part_up_to_one(x: int, whole: int) -> Option<int> {
    match quotient(x, whole) {
        Some(q) => Some(
            if q < one() {
                q
            } else {
                one()
            },
        ),
        None => None,
    }
}

/// A score is the composite of the volume's logarithm by nine and the
/// volatility by five percent, each at most one, the trend and the structure at
/// the last close; beside it stand what it was made from and what the ticker
/// says of the day.
pub proof fn scores_are_made_from_their_parts(
    symbol: Seq<char>,
    b: Seq<Bar>,
    t: Ticker,
    log_volume: int,
)
    requires
        b.len() > 0,
    ensures
        score_of(symbol, b, t, log_volume) matches Some(s) ==> {
            let log = if log_volume > 0 {
                log_volume
            } else {
                0
            };
            let vol = part_up_to_one(log, 9 * one());
            let vola = part_up_to_one(s.volatility, 5 * one());
            &&& vol is Some && vola is Some
            &&& Some(s.composite) == composite_of(vol->0, vola->0, s.trend_bullish, s.smc_score)
            &&& volatility_of(b) == Some(s.volatility)
            &&& trend_of(b) == Some(s.trend_bullish)
            &&& context(b, b.last().close) matches Some(c) && c.score == s.smc_score
            &&& s.symbol == symbol
            &&& s.volume_24h == t.quote_volume
            &&& s.change_24h == t.price_change_pct
        },
{
    lemma_pow10_28();
    assert(dec(9, 0) == 9 * one());
    assert(dec(5, 0) == 5 * one());
}

proof fn lemma_scores_prefix(s: Seq<Row>, r: Row, n: int)
    requires
        n <= s.len(),
    ensures
        scores_of(s.push(r), n) == scores_of(s, n),
    decreases n,
{
    if n > 0 {
        lemma_scores_prefix(s, r, n - 1);
        assert(s.push(r)[n - 1] == s[n - 1]);
    }
}

/// One more row adds its score where it has at least 55 candles and can be
/// scored, and nothing else.
pub proof fn a_row_adds_its_score(s: Seq<Row>, r: Row)
    ensures
        ({
            let n = s.len() as int;
            let score = score_of(r.ticker.symbol, r.bars, r.ticker, r.log_volume);
            &&& scores_of(s.push(r), n + 1) == if r.bars.len() >= 55 && score is Some {
                scores_of(s, n).push(score->0)
            } else {
                scores_of(s, n)
            }
            &&& scores_of(Seq::empty(), 0) == Seq::<Rated>::empty()
        }),
{
    lemma_scores_prefix(s, r, s.len() as int);
    assert(s.push(r)[s.len() as int] == r);
}

// ── Readings of candles, signals and metrics ──────────────────────

/// The body of a candle in percent of its range: where the steps are exact, it
/// times the way from low to high is a hundred times the way from open to
/// close.
pub proof fn the_body_is_a_part_of_the_range(x: Bar, share: int, pct: int)
    requires
        x.high > x.low,
        representable(x.high - x.low),
        representable(x.close - x.open),
        representable(share),
        representable(pct),
        pct == 100 * share,
        x.close >= x.open ==> share * (x.high - x.low) == (x.close - x.open) * one(),
        x.close < x.open ==> share * (x.high - x.low) == (x.open - x.close) * one(),
    ensures
        x.body_pct() == Some(pct),
{
    lemma_pow10_28();
    nearest_is_exact(x.high - x.low, 1);
    nearest_is_exact(x.close - x.open, 1);
    let body = if x.close >= x.open {
        x.close - x.open
    } else {
        x.open - x.close
    };
    exact_results_stand(body, x.high - x.low, share);
    assert(share * dec(100, 0) == pct * one()) by (nonlinear_arith)
        requires
            dec(100, 0) == 100 * one(),
            pct == 100 * share,
    ;
    exact_results_stand(share, dec(100, 0), pct);
}

/// A distance in percent of the entry does not tell above from below; it is
/// zero at an entry of zero, and where the steps are exact it times the entry is
/// a hundred times the distance.
pub proof fn distances_are_in_percent_of_the_entry(entry: int, way: int, share: int, pct: int)
    requires
        representable(share),
        representable(pct),
        pct == 100 * share,
        way >= 0,
        entry > 0,
        share * entry == way * one(),
    ensures
        distance_pct(entry, Some(way)) == Some(pct),
        distance_pct(entry, Some(-way)) == Some(pct),
        distance_pct(0, Some(way)) == Some(0int),
{
    lemma_pow10_28();
    exact_results_stand(way, entry, share);
    assert(share * dec(100, 0) == pct * one()) by (nonlinear_arith)
        requires
            dec(100, 0) == 100 * one(),
            pct == 100 * share,
    ;
    exact_results_stand(share, dec(100, 0), pct);
}

/// The grade goes by the win rate: A+ from 62 %, A from 56 %, B from 52 %, C
/// from 50 %, and D below.
pub proof fn grades_go_by_the_win_rate(rate: int)
    ensures
        100 * rate >= 62 * one() ==> grade_of(rate) == "A+"@,
        56 * one() <= 100 * rate < 62 * one() ==> grade_of(rate) == "A"@,
        52 * one() <= 100 * rate < 56 * one() ==> grade_of(rate) == "B"@,
        50 * one() <= 100 * rate < 52 * one() ==> grade_of(rate) == "C"@,
        100 * rate < 50 * one() ==> grade_of(rate) == "D"@,
{
    lemma_pow10_28();
    assert(pow10(2) == 100) by {
        reveal_with_fuel(pow10, 3);
    }
    lemma_pow10_adds(2, 26);
}

} // verus!
