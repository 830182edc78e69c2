//! Ordinary markets stay within the decimal range: for prices of at most a
//! trillion no indicator, detector, signal or score fails but for want of
//! candles or of volume.

use vstd::prelude::*;

use crate::decimal::{
    dec, difference, exact_results_stand, lemma_pow10_28, lemma_pow10_adds, magnitude, max_of,
    nearest, nearest_is_exact, nearest_is_monotone, nearest_is_odd, nearest_is_representable,
    nearest_is_there, nearest_keeps_bounds, neutral_elements, o_difference, o_sum, one, pow10,
    product, quotient, representable, rounding_is_close, rounding_stays_within, shares_are_there,
    sign_is_kept, sum,
};
use crate::exchange::Ticker;
use crate::indicators::{
    atr_of, closes_of, count, diverged, divergence_of, ema_at, ema_of, ema_weight, last_of, line_at,
    macd_line, macd_of, moved, rsi_of, rsi_stays_in_range, smoothed, stoch_rsi_is_there,
    stoch_rsi_of, stoch_rsi_stays_in_range, too_few, total, total_moved, total_range, total_value,
    total_volume, true_range, typical, vwap_of, IndicatorError,
};
use crate::scanner::{capped_share, composite_stays_in_range, last_close, score_or_none, trend_of};
use crate::signals::{
    bounce, bounce_confidence, bounces, breakout, candidates, chosen, divergent, levels, readings,
    reversal, reward_over_risk, surge, sweep, volume_spike, EngineConfig, Readings,
};
use crate::smc::{
    block_at, blocks_before, context, context_score_range, near_blocks, order_blocks, Block,
};
use crate::types::{Bar, Direction};

verus! {

/// A trillion.
pub open spec fn trillion() -> int {
    dec(1000000000000, 0)
}

/// Are all of the values within 0 and a trillion?
pub open spec fn ordinary(c: Seq<int>) -> bool {
    forall|i: int| 0 <= i < c.len() ==> 0 <= #[trigger] c[i] <= trillion()
}

/// Are all of the values within a trillion of zero?
pub open spec fn moderate(c: Seq<int>) -> bool {
    forall|i: int| 0 <= i < c.len() ==> -trillion() <= #[trigger] c[i] <= trillion()
}

/// As long as a row may be for the sum of it to be in range.
pub open spec fn longest() -> int {
    10000000000000000
}

proof fn lemma_trillions(n: int)
    requires
        0 <= n <= longest(),
    ensures
        representable(n * trillion()),
        representable(trillion()),
        trillion() == 1000000000000 * one(),
{
    lemma_pow10_28();
    let e = one();
    assert(dec(n * 1000000000000, 0) == n * trillion()) by (nonlinear_arith)
        requires
            dec(n * 1000000000000, 0) == (n * 1000000000000) * e,
            trillion() == 1000000000000 * e,
    ;
    assert(dec(1000000000000, 0) == trillion());
}

// ── RSI ───────────────────────────────────────────────────────────

proof fn lemma_move(c: Seq<int>, i: int, up: bool)
    requires
        ordinary(c),
        0 <= i < c.len() - 1,
    ensures
        moved(c, i, up) matches Some(m) && 0 <= m <= trillion(),
{
    lemma_trillions(1);
    assert(0 <= c[i] <= trillion());
    assert(0 <= c[i + 1] <= trillion());
    rounding_stays_within(c[i + 1] - c[i], 1, trillion());
}

proof fn lemma_total_moved(c: Seq<int>, n: int, up: bool)
    requires
        ordinary(c),
        0 <= n < c.len(),
        n <= longest(),
    ensures
        total_moved(c, n, up) matches Some(t) && 0 <= t <= n * trillion(),
    decreases n,
{
    if n > 0 {
        lemma_total_moved(c, n - 1, up);
        lemma_move(c, n - 1, up);
        lemma_trillions(n);
        let t = total_moved(c, n - 1, up)->0;
        let m = moved(c, n - 1, up)->0;
        assert((n - 1) * trillion() + trillion() == n * trillion()) by (nonlinear_arith);
        rounding_stays_within(t + m, 1, n * trillion());
        sign_is_kept(t, m);
    }
}

/// The mean of `n` numbers whose sum is at most `n` trillions.
proof fn lemma_mean(t: int, n: int)
    requires
        n > 0,
        -(n * trillion()) <= t <= n * trillion(),
    ensures
        quotient(t, count(n)) matches Some(r) && -trillion() <= r <= trillion(),
        t >= 0 ==> quotient(t, count(n))->0 >= 0,
{
    lemma_trillions(1);
    lemma_pow10_28();
    let e = one();
    let w = trillion();
    assert(-(w * (n * e)) <= t * e <= w * (n * e) && n * e > 0) by (nonlinear_arith)
        requires
            -(n * w) <= t <= n * w,
            n > 0,
            e > 0,
    ;
    rounding_stays_within(t * e, count(n), w);
    if t >= 0 {
        sign_is_kept(t, count(n));
    }
}

proof fn lemma_smoothed(c: Seq<int>, period: int, n: int, up: bool)
    requires
        ordinary(c),
        0 < period <= n < c.len(),
        period <= longest(),
    ensures
        smoothed(c, period, n, up) matches Some(a) && 0 <= a <= trillion(),
    decreases n,
{
    lemma_pow10_28();
    lemma_trillions(period);
    let w = trillion();
    if n <= period {
        lemma_total_moved(c, period, up);
        lemma_mean(total_moved(c, period, up)->0, period);
    } else {
        lemma_smoothed(c, period, n - 1, up);
        lemma_move(c, n - 1, up);
        lemma_trillions(period - 1);
        let e = one();
        let prev = smoothed(c, period, n - 1, up)->0;
        assert(0 <= prev * ((period - 1) * e) <= ((period - 1) * w) * e) by (nonlinear_arith)
            requires
                0 <= prev <= w,
                period >= 1,
                e > 0,
        ;
        rounding_stays_within(prev * count(period - 1), e, (period - 1) * w);
        let kept = product(prev, count(period - 1))->0;
        assert(count(period - 1) >= 0) by (nonlinear_arith)
            requires
                count(period - 1) == (period - 1) * e,
                period >= 1,
                e > 0,
        ;
        sign_is_kept(prev, count(period - 1));
        let m = moved(c, n - 1, up)->0;
        assert((period - 1) * w + w == period * w) by (nonlinear_arith);
        rounding_stays_within(kept + m, 1, period * w);
        sign_is_kept(kept, m);
        lemma_mean(sum(kept, m)->0, period);
    }
}

/// Of ordinary prices, the RSI is there unless there are too few of them.
pub proof fn rsi_of_ordinary_prices(c: Seq<int>, period: int)
    requires
        ordinary(c),
        0 < period <= longest(),
    ensures
        c.len() < period + 1 ==> rsi_of(c, period) == Err::<int, IndicatorError>(
            too_few(period + 1, c.len()),
        ),
        c.len() >= period + 1 ==> (rsi_of(c, period) matches Ok(x) && 0 <= x <= dec(100, 0)),
{
    if c.len() >= period + 1 {
        lemma_smoothed(c, period, c.len() - 1, true);
        lemma_smoothed(c, period, c.len() - 1, false);
        rsi_stays_in_range(c, period);
    }
}

/// Of ordinary prices, the stochastic RSI is there unless there are too few of
/// them.
pub proof fn stoch_rsi_of_ordinary_prices(c: Seq<int>, rsi_period: int, stoch_period: int)
    requires
        ordinary(c),
        0 < rsi_period <= longest(),
        0 < stoch_period,
    ensures
        c.len() < rsi_period + stoch_period + 1 <==> stoch_rsi_of(c, rsi_period, stoch_period)
            is Err,
        stoch_rsi_of(c, rsi_period, stoch_period) matches Err(e) ==> e == too_few(
            rsi_period + stoch_period + 1,
            c.len(),
        ),
        stoch_rsi_of(c, rsi_period, stoch_period) matches Ok(s) ==> 0 <= s.k <= dec(100, 0) && 0
            <= s.d <= dec(100, 0),
{
    if c.len() >= rsi_period + stoch_period + 1 {
        assert forall|n: int| rsi_period < n <= c.len() implies #[trigger] rsi_of(
            c.subrange(0, n),
            rsi_period,
        ) is Ok by {
            let part = c.subrange(0, n);
            assert forall|i: int| 0 <= i < part.len() implies 0 <= #[trigger] part[i]
                <= trillion() by {
                assert(part[i] == c[i]);
            }
            rsi_of_ordinary_prices(part, rsi_period);
        }
        stoch_rsi_is_there(c, rsi_period, stoch_period);
        stoch_rsi_stays_in_range(c, rsi_period, stoch_period);
    }
}

/// Of ordinary prices, a divergence is told of by the RSI of two windows that
/// are both there.
pub proof fn divergence_of_ordinary_prices(b: Seq<Bar>, period: int)
    requires
        ordinary(closes_of(b)),
        0 < period <= longest(),
        b.len() >= period * 2 + 2,
    ensures
        ({
            let n = b.len() as int;
            let c = closes_of(b);
            &&& rsi_of(c.subrange(n - period - 1, n), period) matches Ok(now) && rsi_of(
                c.subrange(n - period * 2 - 1, n - period),
                period,
            ) matches Ok(prev) && divergence_of(b, period) == diverged(
                c[n - period - 1],
                c[n - 1],
                prev,
                now,
            )
        }),
{
    let n = b.len() as int;
    let c = closes_of(b);
    let late = c.subrange(n - period - 1, n);
    let early = c.subrange(n - period * 2 - 1, n - period);
    assert forall|i: int| 0 <= i < late.len() implies 0 <= #[trigger] late[i] <= trillion() by {
        assert(late[i] == c[n - period - 1 + i]);
    }
    assert forall|i: int| 0 <= i < early.len() implies 0 <= #[trigger] early[i] <= trillion() by {
        assert(early[i] == c[n - period * 2 - 1 + i]);
    }
    rsi_of_ordinary_prices(late, period);
    rsi_of_ordinary_prices(early, period);
}

// ── EMA and MACD ──────────────────────────────────────────────────

proof fn lemma_total(c: Seq<int>, n: int)
    requires
        moderate(c),
        0 <= n <= c.len(),
        n <= longest(),
    ensures
        total(c, n) matches Some(t) && -(n * trillion()) <= t <= n * trillion(),
        ordinary(c) ==> total(c, n)->0 >= 0,
    decreases n,
{
    if n > 0 {
        lemma_total(c, n - 1);
        lemma_trillions(n);
        let t = total(c, n - 1)->0;
        assert(-trillion() <= c[n - 1] <= trillion());
        assert((n - 1) * trillion() + trillion() == n * trillion()) by (nonlinear_arith);
        rounding_stays_within(t + c[n - 1], 1, n * trillion());
        if ordinary(c) {
            assert(c[n - 1] >= 0);
            sign_is_kept(t, c[n - 1]);
        }
    }
}

/// The two weights of an average are within 0 and 1, and make up 1.
proof fn lemma_weights(period: int)
    requires
        0 < period <= longest(),
    ensures
        ema_weight(period) matches Some(k) && 0 <= k <= one() && difference(one(), k) == Some(
            one() - k,
        ),
{
    lemma_pow10_28();
    let e = one();
    assert(dec(period + 1, 0) == count(period) + e) by (nonlinear_arith)
        requires
            dec(period + 1, 0) == (period + 1) * e,
            count(period) == period * e,
    ;
    assert(representable(count(period) + e)) by {
        assert(dec(period + 1, 0) == count(period) + e);
    }
    nearest_is_exact(count(period) + e, 1);
    let d = count(period) + e;
    assert(sum(count(period), e) == Some(d));
    assert(0 <= (2 * e) * e <= (1 * e) * d && d > 0) by (nonlinear_arith)
        requires
            d == period * e + e,
            period >= 1,
            e > 0,
    ;
    nearest_is_there((2 * e) * e, d, 1);
    nearest_keeps_bounds((2 * e) * e, d, 1);
    let k = ema_weight(period)->0;
    assert(representable(e - k)) by {
        assert(pow10(0) == 1);
        assert(dec(e - k, 28) == e - k);
    }
    nearest_is_exact(e - k, 1);
}

/// A share of a moderate number is within that share of a trillion.
proof fn lemma_weighed(x: int, k: int)
    requires
        -trillion() <= x <= trillion(),
        0 <= k <= one(),
    ensures
        product(x, k) matches Some(r) && -(1000000000000 * k) <= r <= 1000000000000 * k,
        x >= 0 ==> product(x, k)->0 >= 0,
{
    lemma_pow10_28();
    let e = one();
    let w = 1000000000000 * k;
    assert(representable(w)) by {
        assert(pow10(12) == 1000000000000) by {
            reveal_with_fuel(pow10, 13);
        }
        assert(dec(k, 16) == k * pow10(12));
    }
    assert(-(w * e) <= x * k <= w * e) by (nonlinear_arith)
        requires
            -(1000000000000 * e) <= x <= 1000000000000 * e,
            w == 1000000000000 * k,
            k >= 0,
    ;
    rounding_stays_within(x * k, e, w);
    if x >= 0 {
        sign_is_kept(x, k);
    }
}

proof fn lemma_ema(c: Seq<int>, period: int, i: int)
    requires
        moderate(c),
        0 < period <= longest(),
        0 <= i <= c.len() - period,
    ensures
        ema_at(c, period, i) matches Some(x) && -trillion() <= x <= trillion(),
        ordinary(c) ==> ema_at(c, period, i)->0 >= 0,
    decreases i,
{
    lemma_trillions(1);
    if i <= 0 {
        lemma_total(c, period);
        lemma_mean(total(c, period)->0, period);
    } else {
        lemma_ema(c, period, i - 1);
        lemma_weights(period);
        let k = ema_weight(period)->0;
        let x = c[period + i - 1];
        assert(-trillion() <= x <= trillion());
        let prev = ema_at(c, period, i - 1)->0;
        lemma_weighed(x, k);
        lemma_weighed(prev, one() - k);
        let a = product(x, k)->0;
        let b = product(prev, one() - k)->0;
        rounding_stays_within(a + b, 1, trillion());
        if ordinary(c) {
            assert(x >= 0);
            sign_is_kept(a, b);
        }
    }
}

/// Of ordinary prices, the EMA is there unless there are too few of them, and
/// none of its values is below zero or above a trillion.
pub proof fn ema_of_ordinary_prices(c: Seq<int>, period: int)
    requires
        ordinary(c),
        0 < period <= longest(),
    ensures
        c.len() < period ==> ema_of(c, period) == Err::<Seq<int>, IndicatorError>(
            too_few(period, c.len()),
        ),
        c.len() >= period ==> (ema_of(c, period) matches Ok(s) && s.len() == c.len() - period + 1
            && ordinary(s)),
{
    if c.len() >= period {
        lemma_series(c, period);
    }
}

proof fn lemma_series(c: Seq<int>, period: int)
    requires
        moderate(c),
        0 < period <= longest(),
        c.len() >= period,
    ensures
        ema_of(c, period) matches Ok(s) && s.len() == c.len() - period + 1 && moderate(s) && (
        ordinary(c) ==> ordinary(s)),
{
    lemma_ema(c, period, c.len() - period);
    let s = ema_of(c, period)->Ok_0;
    assert forall|i: int| 0 <= i < s.len() implies -trillion() <= #[trigger] s[i] <= trillion() && (
    ordinary(c) ==> s[i] >= 0) by {
        lemma_ema(c, period, i);
    }
}

/// Of ordinary prices, the MACD is there unless there are fewer than 34 of
/// them.  Its line is the fast average less the slow one, its signal the last
/// average of that line, and its histogram the line less the signal.
pub proof fn macd_of_ordinary_prices(c: Seq<int>)
    requires
        ordinary(c),
    ensures
        c.len() < 34 ==> (macd_of(c) matches Err(e) && e is NotEnoughData),
        c.len() >= 34 ==> {
            &&& macd_of(c) matches Ok(m)
            &&& last_of(ema_of(c, 12)) matches Ok(fast)
            &&& last_of(ema_of(c, 26)) matches Ok(slow)
            &&& macd_line(ema_of(c, 12)->Ok_0, ema_of(c, 26)->Ok_0) matches Ok(line)
            &&& difference(fast, slow) == Some(m.macd)
            &&& last_of(ema_of(line, 9)) == Ok::<int, IndicatorError>(m.signal)
            &&& difference(m.macd, m.signal) == Some(m.histogram)
        },
{
    lemma_trillions(2);
    ema_of_ordinary_prices(c, 12);
    ema_of_ordinary_prices(c, 26);
    if c.len() >= 26 {
        let fast = ema_of(c, 12)->Ok_0;
        let slow = ema_of(c, 26)->Ok_0;
        assert forall|i: int| 0 <= i < slow.len() implies (#[trigger] line_at(fast, slow, i)
            matches Some(x) && -trillion() <= x <= trillion()) by {
            let a = fast[fast.len() - slow.len() + i];
            assert(0 <= a <= trillion());
            assert(0 <= slow[i] <= trillion());
            rounding_stays_within(a - slow[i], 1, trillion());
        }
        let line = macd_line(fast, slow)->Ok_0;
        assert forall|i: int| 0 <= i < line.len() implies -trillion() <= #[trigger] line[i]
            <= trillion() by {
            assert(line_at(fast, slow, i) is Some);
        }
        if c.len() >= 34 {
            lemma_series(line, 9);
            let signal = ema_of(line, 9)->Ok_0;
            assert(-trillion() <= line[line.len() - 1] <= trillion());
            assert(-trillion() <= signal[signal.len() - 1] <= trillion());
            rounding_stays_within(line.last() - signal.last(), 1, 2 * trillion());
            assert(line_at(fast, slow, slow.len() - 1) is Some);
        }
    }
}

// ── Candles ───────────────────────────────────────────────────────

/// Do the prices of a candle lie within its range, which is within 0 and a
/// trillion, and has it a volume of at most a trillion with no more than eight
/// decimals?
pub open spec fn ordinary_bar(b: Bar) -> bool {
    &&& 0 <= b.low <= b.open <= b.high <= trillion()
    &&& b.low <= b.close <= b.high
    &&& 0 <= b.volume <= trillion()
    &&& b.volume % dec(1, 8) == 0
}

/// Are all of the candles ordinary?
pub open spec fn ordinary_bars(b: Seq<Bar>) -> bool {
    forall|i: int| 0 <= i < b.len() ==> ordinary_bar(#[trigger] b[i])
}

/// The closes of ordinary candles are ordinary prices.
pub proof fn ordinary_closes(b: Seq<Bar>)
    requires
        ordinary_bars(b),
    ensures
        ordinary(closes_of(b)),
{
    let c = closes_of(b);
    assert forall|i: int| 0 <= i < c.len() implies 0 <= #[trigger] c[i] <= trillion() by {
        assert(ordinary_bar(b[i]));
    }
}

proof fn lemma_true_range(b: Seq<Bar>, i: int)
    requires
        ordinary_bars(b),
        0 < i < b.len(),
    ensures
        true_range(b, i) matches Some(r) && 0 <= r <= trillion(),
{
    lemma_trillions(1);
    assert(ordinary_bar(b[i]));
    assert(ordinary_bar(b[i - 1]));
    rounding_stays_within(b[i].high - b[i].low, 1, trillion());
    rounding_stays_within(b[i].high - b[i - 1].close, 1, trillion());
    rounding_stays_within(b[i].low - b[i - 1].close, 1, trillion());
}

proof fn lemma_total_range(b: Seq<Bar>, lo: int, hi: int)
    requires
        ordinary_bars(b),
        0 < lo <= hi <= b.len(),
        hi - lo <= longest(),
    ensures
        total_range(b, lo, hi) matches Some(t) && 0 <= t <= (hi - lo) * trillion(),
    decreases hi - lo,
{
    if hi > lo {
        lemma_total_range(b, lo, hi - 1);
        lemma_true_range(b, hi - 1);
        lemma_trillions(hi - lo);
        let t = total_range(b, lo, hi - 1)->0;
        let r = true_range(b, hi - 1)->0;
        assert((hi - 1 - lo) * trillion() + trillion() == (hi - lo) * trillion())
            by (nonlinear_arith);
        rounding_stays_within(t + r, 1, (hi - lo) * trillion());
        sign_is_kept(t, r);
    }
}

/// Of ordinary candles, the ATR is there unless there are too few of them.
pub proof fn atr_of_ordinary_candles(b: Seq<Bar>, period: int)
    requires
        ordinary_bars(b),
        0 < period <= longest(),
    ensures
        b.len() < period + 1 ==> atr_of(b, period) == Err::<int, IndicatorError>(
            too_few(period + 1, b.len()),
        ),
        b.len() >= period + 1 ==> (atr_of(b, period) matches Ok(x) && 0 <= x <= trillion()),
{
    if b.len() >= period + 1 {
        let n = b.len() as int;
        lemma_total_range(b, n - period, n);
        lemma_mean(total_range(b, n - period, n)->0, period);
    }
}

/// The step of a volume: one hundred-millionth.
proof fn lemma_step()
    ensures
        dec(1, 8) == 100000000000000000000,
        one() == 10000000000000000000000000000,
{
    lemma_pow10_28();
    assert(dec(1, 8) == 100000000000000000000) by {
        reveal_with_fuel(pow10, 21);
    }
}

/// Sums of volumes are exact, and `k` times such a sum is a decimal for the
/// factors 1 and a trillion.
proof fn lemma_volume_sum(v: int)
    requires
        0 <= v <= 10000 * trillion(),
        v % dec(1, 8) == 0,
    ensures
        representable(v),
        representable(1000000000000 * v),
{
    lemma_step();
    lemma_trillions(1);
    let m = v / 100000000000000000000;
    assert(v == m * 100000000000000000000);
    assert(dec(m, 8) == v) by {
        assert(pow10(20) == dec(1, 8));
        assert(m * pow10(20) == v);
    }
    let e = one();
    assert((m * 10000) * e == 1000000000000 * v) by (nonlinear_arith)
        requires
            v == m * 100000000000000000000,
            e == 10000000000000000000000000000,
    ;
    assert(dec(m * 10000, 0) == 1000000000000 * v);
}

proof fn lemma_volumes(b: Seq<Bar>, n: int)
    requires
        ordinary_bars(b),
        0 <= n <= b.len(),
        n <= 10000,
    ensures
        total_volume(b, n) matches Some(v) && 0 <= v <= n * trillion() && v % dec(1, 8) == 0,
        total_value(b, n) matches Some(x) && 0 <= x <= 1000000000000 * total_volume(b, n)->0,
        forall|i: int| 0 <= i < n ==> (#[trigger] b[i]).volume <= total_volume(b, n)->0,
    decreases n,
{
    lemma_trillions(1);
    lemma_step();
    if n > 0 {
        lemma_volumes(b, n - 1);
        let last = b[n - 1];
        assert(ordinary_bar(last));
        let v = total_volume(b, n - 1)->0;
        let x = total_value(b, n - 1)->0;
        let w = trillion();
        assert((n - 1) * w + w == n * w && n * w <= 10000 * w) by (nonlinear_arith)
            requires
                n <= 10000,
                w > 0,
        ;
        lemma_volume_sum(v + last.volume);
        lemma_volume_sum(last.volume);
        nearest_is_exact(v + last.volume, 1);
        lemma_typical(last);
        let typ = typical(last)->0;
        let e = one();
        assert(-((1000000000000 * last.volume) * e) <= typ * last.volume <= (1000000000000
            * last.volume) * e && typ * last.volume >= 0) by (nonlinear_arith)
            requires
                0 <= typ <= 1000000000000 * e,
                last.volume >= 0,
                e > 0,
        ;
        rounding_stays_within(typ * last.volume, e, 1000000000000 * last.volume);
        sign_is_kept(typ, last.volume);
        let y = product(typ, last.volume)->0;
        rounding_stays_within(x + y, 1, 1000000000000 * (v + last.volume));
        sign_is_kept(x, y);
    }
}

proof fn lemma_typical(b: Bar)
    requires
        ordinary_bar(b),
    ensures
        typical(b) matches Some(x) && 0 <= x <= trillion(),
{
    lemma_trillions(2);
    lemma_trillions(3);
    rounding_stays_within(b.high + b.low, 1, 2 * trillion());
    sign_is_kept(b.high, b.low);
    let s = sum(b.high, b.low)->0;
    rounding_stays_within(s + b.close, 1, 3 * trillion());
    sign_is_kept(s, b.close);
    lemma_mean(sum(s, b.close)->0, 3);
    assert(dec(3, 0) == count(3));
}

/// A typical price lies between the low and the high of its candle, up to
/// rounding.
proof fn lemma_typical_between(b: Bar)
    requires
        ordinary_bar(b),
    ensures
        b.low - 20000000000000000 <= typical(b)->0 <= b.high + 20000000000000000,
{
    lemma_typical(b);
    lemma_trillions(2);
    lemma_trillions(3);
    lemma_near_by(b.high + b.low, 1);
    rounding_stays_within(b.high + b.low, 1, 2 * trillion());
    let s = sum(b.high, b.low)->0;
    lemma_near_by(s + b.close, 1);
    rounding_stays_within(s + b.close, 1, 3 * trillion());
    let u = sum(s, b.close)->0;
    let e = one();
    let w = trillion();
    assert(count(3) == dec(3, 0));
    assert(-((10 * w) * (3 * e)) <= u * e <= (10 * w) * (3 * e) && 3 * e > 0) by (nonlinear_arith)
        requires
            -(3 * w) <= u <= 3 * w,
            w >= 0,
            e > 0,
    ;
    lemma_near_by(u * e, count(3));
    let x = typical(b)->0;
    let g = 10000000000000000int;
    assert(-(3 * g) <= 3 * x - u <= 3 * g) by (nonlinear_arith)
        requires
            x * (3 * e) - g * (3 * e) <= u * e <= x * (3 * e) + g * (3 * e),
            e > 0,
    ;
}

/// One more candle in a weighed sum, from above: what rounding adds is a small
/// part of the volume.
proof fn lemma_weighed_above(x: int, y: int, sum: int, v: int, vol: int, typ: int, top: int, c: int)
    requires
        v >= 0,
        vol >= 0,
        v + vol >= 100000000000000000000,
        vol == 0 || vol >= 100000000000000000000,
        vol == 0 ==> y == 0,
        x >= 0,
        y >= 0,
        0 <= typ <= top,
        c >= 0,
        top + c <= 30000000000000000000000000000000000000000,
        x * 10000000000000000000000000000 <= v * (top + c),
        (y * 10000000000000000000000000000 - typ * vol) * 1000000000000000000000000000 <= typ * vol
            + 10000000000000000000000000000 * 1000000000000000000000000000,
        (sum - (x + y)) * 1000000000000000000000000000 <= x + y + 1000000000000000000000000000,
    ensures
        sum * 10000000000000000000000000000 <= (v + vol) * (top + c + 100000000000000),
        (x + y) * 10000000000000000000000000000 <= (v + vol) * 40000000000000000000000000000000000000000,
{
    let e = 10000000000000000000000000000int;
    let g = 1000000000000000000000000000int;
    let f = 40000000000000int;
    assert(y * e <= vol * (top + f)) by (nonlinear_arith)
        requires
            vol == 0 || vol >= 100000000000000000000,
            vol == 0 ==> y == 0,
            0 <= typ <= top,
            top <= 30000000000000000000000000000000000000000,
            (y * e - typ * vol) * g <= typ * vol + e * g,
            e == 10000000000000000000000000000,
            g == 1000000000000000000000000000,
            f == 40000000000000,
    {
        if vol != 0 {
            assert(typ * vol <= top * vol);
            assert(top * vol <= 30000000000000 * g * vol);
            assert(e * g <= 100000000 * vol * g);
            assert((y * e) * g <= (top * vol) * g + 30000000000000 * g * vol + 100000000 * vol * g);
            assert((top * vol) * g + 30000000000000 * g * vol + 100000000 * vol * g <= (vol * (top
                + f)) * g);
        }
    }
    let w = v + vol;
    assert((x + y) * e <= w * (top + c + f)) by (nonlinear_arith)
        requires
            x * e <= v * (top + c),
            y * e <= vol * (top + f),
            w == v + vol,
            v >= 0,
            vol >= 0,
            c >= 0,
            f >= 0,
    ;
    let b = top + c + f;
    assert(w * b <= w * 40000000000000000000000000000000000000000) by (nonlinear_arith)
        requires
            b <= 40000000000000000000000000000000000000000,
            w >= 0,
    ;
    assert(sum * e <= w * (top + c + 100000000000000)) by (nonlinear_arith)
        requires
            (sum - (x + y)) * g <= x + y + g,
            (x + y) * e <= w * b,
            w * b <= w * 40000000000000000000000000000000000000000,
            w >= 100000000000000000000,
            b == top + c + f,
            e == 10000000000000000000000000000,
            g == 1000000000000000000000000000,
            f == 40000000000000,
    {
        assert((sum * e) * g <= ((x + y) * e) * g + (x + y) * e + g * e);
        assert(g * e <= 100000000 * w * g);
        assert(w * 40000000000000000000000000000000000000000 == 40000000000000 * w * g);
        assert((sum * e) * g <= (w * b) * g + 40000000000000 * w * g + 100000000 * w * g);
        assert((w * b) * g + 40000000000000 * w * g + 100000000 * w * g <= (w * (top + c
            + 100000000000000)) * g);
    }
}

/// The same from below.
proof fn lemma_weighed_below(x: int, y: int, sum: int, v: int, vol: int, typ: int, low: int, c: int)
    requires
        v >= 0,
        vol >= 0,
        v + vol >= 100000000000000000000,
        vol == 0 || vol >= 100000000000000000000,
        vol == 0 ==> y == 0,
        0 <= typ <= 30000000000000000000000000000000000000000,
        low <= typ,
        c >= 0,
        x * 10000000000000000000000000000 >= v * (low - c),
        (typ * vol - y * 10000000000000000000000000000) * 1000000000000000000000000000 <= typ * vol
            + 10000000000000000000000000000 * 1000000000000000000000000000,
        (x + y - sum) * 1000000000000000000000000000 <= x + y + 1000000000000000000000000000,
        (x + y) * 10000000000000000000000000000 <= (v + vol)
            * 40000000000000000000000000000000000000000,
    ensures
        sum * 10000000000000000000000000000 >= (v + vol) * (low - c - 100000000000000),
{
    let e = 10000000000000000000000000000int;
    let g = 1000000000000000000000000000int;
    let f = 40000000000000int;
    assert(y * e >= vol * (low - f)) by (nonlinear_arith)
        requires
            vol == 0 || vol >= 100000000000000000000,
            vol == 0 ==> y == 0,
            low <= typ,
            0 <= typ <= 30000000000000000000000000000000000000000,
            (typ * vol - y * e) * g <= typ * vol + e * g,
            e == 10000000000000000000000000000,
            g == 1000000000000000000000000000,
            f == 40000000000000,
    {
        if vol != 0 {
            assert(typ * vol >= low * vol);
            assert(typ * vol <= 30000000000000 * g * vol);
            assert(e * g <= 100000000 * vol * g);
            assert((y * e) * g >= (low * vol) * g - 30000000000000 * g * vol - 100000000 * vol * g);
            assert((low * vol) * g - 30000000000000 * g * vol - 100000000 * vol * g >= (vol * (low
                - f)) * g);
        }
    }
    let w = v + vol;
    assert((x + y) * e >= w * (low - c - f)) by (nonlinear_arith)
        requires
            x * e >= v * (low - c),
            y * e >= vol * (low - f),
            w == v + vol,
            v >= 0,
            vol >= 0,
            c >= 0,
            f >= 0,
    ;
    let b = low - c - f;
    assert(sum * e >= w * (low - c - 100000000000000)) by (nonlinear_arith)
        requires
            (x + y - sum) * g <= x + y + g,
            (x + y) * e >= w * b,
            (x + y) * e <= w * 40000000000000000000000000000000000000000,
            w >= 100000000000000000000,
            b == low - c - f,
            e == 10000000000000000000000000000,
            g == 1000000000000000000000000000,
            f == 40000000000000,
    {
        assert((sum * e) * g >= ((x + y) * e) * g - (x + y) * e - g * e);
        assert(g * e <= 100000000 * w * g);
        assert(w * 40000000000000000000000000000000000000000 == 40000000000000 * w * g);
        assert((sum * e) * g >= (w * b) * g - 40000000000000 * w * g - 100000000 * w * g);
        assert((w * b) * g - 40000000000000 * w * g - 100000000 * w * g >= (w * (low - c
            - 100000000000000)) * g);
    }
}

proof fn lemma_value_between(b: Seq<Bar>, n: int, low: int, top: int)
    requires
        ordinary_bars(b),
        0 <= n <= b.len(),
        n <= 10000,
        0 <= low,
        top <= trillion(),
        forall|i: int| 0 <= i < b.len() ==> low <= (#[trigger] b[i]).low && b[i].high <= top,
    ensures
        total_value(b, n)->0 * one() <= total_volume(b, n)->0 * (top + 20000000000000000 + n
            * 100000000000000),
        total_value(b, n)->0 * one() >= total_volume(b, n)->0 * (low - 20000000000000000 - n
            * 100000000000000),
    decreases n,
{
    lemma_step();
    lemma_trillions(1);
    lemma_volumes(b, n);
    if n > 0 {
        lemma_value_between(b, n - 1, low, top);
        lemma_volumes(b, n - 1);
        let k = b[n - 1];
        assert(ordinary_bar(k));
        assert(low <= k.low && k.high <= top);
        lemma_typical(k);
        lemma_typical_between(k);
        let e = one();
        let typ = typical(k)->0;
        let x = total_value(b, n - 1)->0;
        let v = total_volume(b, n - 1)->0;
        let y = product(typ, k.volume)->0;
        let s = total_value(b, n)->0;
        assert(typ * k.volume >= 0) by (nonlinear_arith)
            requires
                typ >= 0,
                k.volume >= 0,
        ;
        rounding_is_close(typ * k.volume, e);
        sign_is_kept(typ, k.volume);
        rounding_is_close(x + y, 1);
        assert(total_volume(b, n)->0 == v + k.volume) by {
            lemma_sum_of_volumes(b, n);
        }
        if v + k.volume == 0 {
            assert(s == 0);
        } else {
            lemma_at_least_a_step(v + k.volume);
            if k.volume != 0 {
                lemma_at_least_a_step(k.volume);
            } else {
                assert(typ * 0 == 0) by (nonlinear_arith);
                lemma_least(0);
                nearest_is_exact(0, e);
                assert(0 * e == 0);
            }
            let c = (n - 1) * 100000000000000;
            let hi = top + 20000000000000000;
            let lo = low - 20000000000000000;
            assert(y * e - typ * k.volume <= magnitude(y * e - typ * k.volume));
            assert(typ * k.volume - y * e <= magnitude(y * e - typ * k.volume));
            lemma_weighed_above(x, y, s, v, k.volume, typ, hi, c);
            lemma_weighed_below(x, y, s, v, k.volume, typ, lo, c);
        }
    }
}

proof fn lemma_sum_of_volumes(b: Seq<Bar>, n: int)
    requires
        ordinary_bars(b),
        0 < n <= b.len(),
        n <= 10000,
    ensures
        total_volume(b, n)->0 == total_volume(b, n - 1)->0 + b[n - 1].volume,
{
    lemma_step();
    lemma_trillions(1);
    lemma_volumes(b, n - 1);
    assert(ordinary_bar(b[n - 1]));
    let v = total_volume(b, n - 1)->0;
    let w = trillion();
    assert((n - 1) * w + w == n * w && n * w <= 10000 * w) by (nonlinear_arith)
        requires
            n <= 10000,
            w > 0,
    ;
    lemma_volume_sum(v + b[n - 1].volume);
    nearest_is_exact(v + b[n - 1].volume, 1);
}

proof fn lemma_at_least_a_step(x: int)
    requires
        x >= 0,
        x != 0,
        x % dec(1, 8) == 0,
    ensures
        x >= 100000000000000000000,
{
    lemma_step();
}

/// The VWAP of at most ten thousand ordinary candles lies between any bounds of
/// their lows and highs, up to a billionth that rounding may add.
pub proof fn vwap_lies_between(b: Seq<Bar>, low: int, top: int)
    requires
        ordinary_bars(b),
        b.len() <= 10000,
        0 <= low,
        top <= trillion(),
        forall|i: int| 0 <= i < b.len() ==> low <= (#[trigger] b[i]).low && b[i].high <= top,
    ensures
        vwap_of(b) matches Ok(x) ==> low - dec(1, 9) <= x <= top + dec(1, 9),
{
    let n = b.len() as int;
    lemma_step();
    lemma_trillions(1);
    assert(dec(1, 9) == 10000000000000000000) by {
        reveal_with_fuel(pow10, 20);
    }
    lemma_volumes(b, n);
    if let Ok(r) = vwap_of(b) {
        lemma_value_between(b, n, low, top);
        let v = total_volume(b, n)->0;
        let x = total_value(b, n)->0;
        lemma_at_least_a_step(v);
        let e = one();
        assert(x * e >= 0) by (nonlinear_arith)
            requires
                x >= 0,
                e > 0,
        ;
        rounding_is_close(x * e, v);
        lemma_mean_between(r, x * e, v, low, top, n);
    }
}

proof fn lemma_mean_between(r: int, x: int, v: int, low: int, top: int, n: int)
    requires
        v > 0,
        x >= 0,
        0 <= n <= 10000,
        top <= 10000000000000000000000000000000000000000,
        x <= v * (top + 20000000000000000 + n * 100000000000000),
        x >= v * (low - 20000000000000000 - n * 100000000000000),
        magnitude(r * v - x) * 1000000000000000000000000000 <= x + v
            * 1000000000000000000000000000,
    ensures
        low - 10000000000000000000 <= r <= top + 10000000000000000000,
{
    let g = 1000000000000000000000000000int;
    let d = magnitude(r * v - x);
    let hi = top + 20000000000000000 + n * 100000000000000;
    let lo = low - 20000000000000000 - n * 100000000000000;
    assert(d <= v * 50000000000000) by (nonlinear_arith)
        requires
            d * g <= x + v * g,
            x <= v * hi,
            hi <= 20000000000000000000000000000000000000000,
            g == 1000000000000000000000000000,
            v > 0,
    {
        assert(v * hi <= v * 20000000000000000000000000000000000000000);
        assert(d * g <= (v * 50000000000000) * g);
    }
    assert(r <= hi + 50000000000000) by (nonlinear_arith)
        requires
            r * v - x <= d,
            d <= v * 50000000000000,
            x <= v * hi,
            v > 0,
    ;
    assert(r >= lo - 50000000000000) by (nonlinear_arith)
        requires
            x - r * v <= d,
            d <= v * 50000000000000,
            x >= v * lo,
            v > 0,
    ;
}

/// Of at most ten thousand ordinary candles, the VWAP is there unless nothing
/// was traded in any of them.
pub proof fn vwap_of_ordinary_candles(b: Seq<Bar>)
    requires
        ordinary_bars(b),
        b.len() <= 10000,
    ensures
        (forall|i: int| 0 <= i < b.len() ==> (#[trigger] b[i]).volume == 0) <==> vwap_of(b) is Err,
        vwap_of(b) matches Err(e) ==> e == IndicatorError::DivisionByZero("vwap"),
        vwap_of(b) matches Ok(x) ==> 0 <= x <= trillion(),
{
    let n = b.len() as int;
    lemma_volumes(b, n);
    lemma_trillions(1);
    let v = total_volume(b, n)->0;
    let x = total_value(b, n)->0;
    if v > 0 {
        let e = one();
        let w = trillion();
        assert(0 <= x * e <= w * v) by (nonlinear_arith)
            requires
                0 <= x <= 1000000000000 * v,
                w == 1000000000000 * e,
                e > 0,
        ;
        rounding_stays_within(x * e, v, w);
        sign_is_kept(x, v);
    }
    if forall|i: int| 0 <= i < n ==> (#[trigger] b[i]).volume == 0 {
        lemma_no_volume(b, n);
    }
    if v == 0 {
        assert forall|i: int| 0 <= i < n implies (#[trigger] b[i]).volume == 0 by {
            assert(ordinary_bar(b[i]));
        }
    }
}

proof fn lemma_no_volume(b: Seq<Bar>, n: int)
    requires
        0 <= n <= b.len(),
        forall|i: int| 0 <= i < n ==> (#[trigger] b[i]).volume == 0,
    ensures
        total_volume(b, n) == Some(0int),
    decreases n,
{
    if n > 0 {
        lemma_no_volume(b, n - 1);
        assert(b[n - 1].volume == 0);
        assert(representable(0)) by {
            assert(dec(0, 0) == 0);
        }
        nearest_is_exact(0, 1);
    }
}

// ── Market structure ──────────────────────────────────────────────

proof fn lemma_block(b: Seq<Bar>, i: int)
    requires
        ordinary_bars(b),
        0 <= i < b.len(),
    ensures
        block_at(b, i) matches Some(x) && (x matches Some(k) ==> 0 <= k.low <= trillion() && 0
            <= k.high <= trillion() && 0 <= k.strength <= dec(100, 0)),
{
    lemma_trillions(2);
    lemma_pow10_28();
    let c = b[i];
    assert(ordinary_bar(c));
    let e = one();
    rounding_stays_within(c.high - c.low, 1, trillion());
    nearest_keeps_bounds(c.high - c.low, 1, 0);
    let range = difference(c.high, c.low)->0;
    let gap = magnitude(c.close - c.open);
    nearest_is_monotone(gap, c.high - c.low, 1);
    nearest_keeps_bounds(gap, 1, 0);
    nearest_is_odd(gap, 1);
    let body = difference(c.close, c.open)->0;
    assert(0 <= magnitude(body) <= range);
    if range != 0 {
        let m = magnitude(body);
        assert(0 <= m * e <= (1 * e) * range) by (nonlinear_arith)
            requires
                0 <= m <= range,
                e > 0,
        ;
        nearest_is_there(m * e, range, 1);
        nearest_keeps_bounds(m * e, range, 1);
        let q = quotient(m, range)->0;
        assert(0 <= q * (100 * e) <= (100 * e) * e) by (nonlinear_arith)
            requires
                0 <= q <= e,
                e > 0,
        ;
        nearest_is_there(q * (100 * e), e, 100);
        nearest_keeps_bounds(q * (100 * e), e, 100);
        lemma_pow10_adds(3, 25);
        assert(pow10(3) == 1000) by {
            reveal_with_fuel(pow10, 4);
        }
        lemma_scaled(c.open, dec(1015, 3));
        lemma_scaled(c.open, dec(985, 3));
    }
}

/// An ordinary price times a factor of at most two is in range.
proof fn lemma_scaled(x: int, factor: int)
    requires
        0 <= x <= trillion(),
        0 <= factor <= 2 * one(),
    ensures
        product(x, factor) is Some,
{
    lemma_trillions(2);
    let e = one();
    let w = trillion();
    assert(0 <= x * factor <= (2 * w) * e) by (nonlinear_arith)
        requires
            0 <= x <= w,
            0 <= factor <= 2 * e,
    ;
    rounding_stays_within(x * factor, e, 2 * w);
}

proof fn lemma_blocks(b: Seq<Bar>, i: int)
    requires
        ordinary_bars(b),
        i <= b.len(),
    ensures
        blocks_before(b, i) matches Some(s) && forall|j: int|
            0 <= j < s.len() ==> 0 <= (#[trigger] s[j]).low <= trillion() && 0 <= s[j].high
                <= trillion(),
    decreases i,
{
    if i > 1 {
        lemma_blocks(b, i - 1);
        lemma_block(b, i - 1);
    }
}

proof fn lemma_near(s: Seq<Block>, price: int, n: int)
    requires
        0 <= n <= s.len(),
        forall|j: int|
            0 <= j < s.len() ==> 0 <= (#[trigger] s[j]).low <= trillion() && 0 <= s[j].high
                <= trillion(),
    ensures
        near_blocks(s, price, n) is Some,
    decreases n,
{
    if n > 0 {
        lemma_near(s, price, n - 1);
        lemma_pow10_28();
        lemma_pow10_adds(1, 27);
        assert(pow10(1) == 10) by {
            reveal_with_fuel(pow10, 2);
        }
        lemma_within(s[n - 1], price, dec(25, 1));
    }
}

/// Whether a price is within a few percent of a block can always be told.
proof fn lemma_within(k: Block, price: int, part: int)
    requires
        0 <= k.low <= trillion(),
        0 <= k.high <= trillion(),
        0 <= part <= dec(100, 0),
    ensures
        k.contains(price, part) is Some,
{
    lemma_pow10_28();
    let e = one();
    assert(0 <= part * e <= (1 * e) * (100 * e)) by (nonlinear_arith)
        requires
            0 <= part <= 100 * e,
            e > 0,
    ;
    nearest_is_there(part * e, 100 * e, 1);
    nearest_keeps_bounds(part * e, 100 * e, 1);
    let tol = quotient(part, dec(100, 0))->0;
    nearest_is_there(e - tol, 1, 1);
    nearest_keeps_bounds(e - tol, 1, 1);
    nearest_is_there(e + tol, 1, 2);
    nearest_keeps_bounds(e + tol, 1, 2);
    lemma_scaled(k.low, difference(e, tol)->0);
    lemma_scaled(k.high, sum(e, tol)->0);
}

/// Of ordinary candles, the market structure is always there.
pub proof fn structure_of_ordinary_candles(b: Seq<Bar>, price: int)
    requires
        ordinary_bars(b),
    ensures
        context(b, price) is Some,
{
    if b.len() >= 40 {
        lemma_blocks(b, b.len() - 3);
        let obs = order_blocks(b)->0;
        lemma_near(obs, price, obs.len() as int);
    }
}

// ── Readings and scores ───────────────────────────────────────────

/// Of 55 to ten thousand ordinary candles, every reading that the signals are
/// made from is there, for a share of the capital within 0 and 1.
pub proof fn ordinary_markets_are_read(b: Seq<Bar>, capital: int, kelly_f: int)
    requires
        ordinary_bars(b),
        55 <= b.len() <= 10000,
        representable(capital),
        0 <= kelly_f <= one(),
    ensures
        readings(b, capital, kelly_f) is Some,
{
    let c = closes_of(b);
    ordinary_closes(b);
    rsi_of_ordinary_prices(c, 14);
    macd_of_ordinary_prices(c);
    ema_of_ordinary_prices(c, 20);
    ema_of_ordinary_prices(c, 50);
    atr_of_ordinary_candles(b, 14);
    vwap_of_ordinary_candles(b);
    structure_of_ordinary_candles(b, c[c.len() - 1]);
    shares_are_there(capital, kelly_f);
    lemma_tenth();
    shares_are_there(capital, dec(10, 2));
}

proof fn lemma_tenth()
    ensures
        0 <= dec(10, 2) <= one(),
{
    lemma_pow10_28();
    lemma_pow10_adds(2, 26);
    assert(pow10(2) == 100) by {
        reveal_with_fuel(pow10, 3);
    }
}

/// Of at least 21 ordinary candles, the spike of the volume is there, and not
/// negative.
pub proof fn spike_of_ordinary_candles(b: Seq<Bar>)
    requires
        ordinary_bars(b),
        b.len() >= 21,
    ensures
        volume_spike(b) matches Some(x) && 0 <= x <= dec(10000000000000000000000000000, 0),
{
    let n = b.len() as int;
    let before = b.subrange(n - 21, n - 1);
    assert forall|i: int| 0 <= i < before.len() implies ordinary_bar(#[trigger] before[i]) by {
        assert(before[i] == b[n - 21 + i]);
    }
    lemma_volumes(before, 20);
    lemma_step();
    lemma_trillions(20);
    let v = total_volume(before, 20)->0;
    lemma_mean(v, 20);
    assert(dec(20, 0) == count(20));
    let avg = quotient(v, count(20))->0;
    if avg > 0 {
        assert(v != 0) by {
            if v == 0 {
                assert(representable(0)) by {
                    assert(dec(0, 0) == 0);
                }
                nearest_is_exact(0, count(20));
                assert(0 * one() == 0 * count(20));
            }
        }
        let step = 100000000000000000000int;
        assert(v >= step) by (nonlinear_arith)
            requires
                v % step == 0,
                v > 0,
                step > 0,
        ;
        // A twentieth of a step is the least that the mean can be.
        let least = 5000000000000000000int;
        let e = one();
        assert(representable(least)) by {
            assert(pow10(0) == 1);
            assert(dec(least, 28) == least);
        }
        nearest_is_exact(least, count(20));
        assert(least * count(20) <= v * e);
        nearest_is_monotone(least * count(20), v * e, count(20));
        let last = b[n - 1].volume;
        assert(ordinary_bar(b[n - 1]));
        let most = 10000000000000000000000000000 * e;
        assert(representable(most)) by {
            assert(dec(10000000000000000000000000000, 0) == most);
        }
        assert(0 <= last * e <= most * avg) by (nonlinear_arith)
            requires
                0 <= last <= 1000000000000 * e,
                avg >= 5000000000000000000,
                e == 10000000000000000000000000000,
                most == 10000000000000000000000000000 * e,
        ;
        rounding_stays_within(last * e, avg, most);
        sign_is_kept(last, avg);
    }
}

/// Of 55 or more ordinary candles that end on a price of at least a
/// hundred-millionth, every coin has a score.
pub proof fn ordinary_coins_are_scored(
    symbol: Seq<char>,
    b: Seq<Bar>,
    t: Ticker,
    log_volume: int,
)
    requires
        ordinary_bars(b),
        b.len() >= 55,
        b[b.len() - 1].close >= dec(1, 8),
        representable(log_volume),
    ensures
        score_or_none(symbol, b, t, log_volume) is Some,
{
    let c = closes_of(b);
    let price = last_close(b);
    ordinary_closes(b);
    lemma_step();
    lemma_trillions(1);
    assert(ordinary_bar(b[b.len() - 1]));
    atr_of_ordinary_candles(b, 14);
    ema_of_ordinary_prices(c, 20);
    ema_of_ordinary_prices(c, 50);
    structure_of_ordinary_candles(b, price);
    context_score_range(b, price);
    let e = one();
    let atr = atr_of(b, 14)->Ok_0;
    let ratio = 100000000000000000000 * e;
    let most = 10000000000000000000000 * e;
    assert(representable(ratio)) by {
        assert(dec(100000000000000000000, 0) == ratio);
    }
    assert(representable(most)) by {
        assert(dec(10000000000000000000000, 0) == most);
    }
    assert(0 <= atr * e <= ratio * price) by (nonlinear_arith)
        requires
            0 <= atr <= 1000000000000 * e,
            price >= 100000000000000000000,
            ratio == 100000000000000000000 * e,
            e == 10000000000000000000000000000,
    ;
    rounding_stays_within(atr * e, price, ratio);
    sign_is_kept(atr, price);
    let q = quotient(atr, price)->0;
    assert(0 <= q * (100 * e) <= most * e) by (nonlinear_arith)
        requires
            0 <= q <= 100000000000000000000 * e,
            most == 10000000000000000000000 * e,
            e > 0,
    ;
    rounding_stays_within(q * (100 * e), e, most);
    sign_is_kept(q, 100 * e);
    nearest_is_representable(q * (100 * e), e);
    let volatility = product(q, dec(100, 0))->0;
    lemma_part(volatility, 5);
    assert(representable(max_of(log_volume, 0))) by {
        assert(dec(0, 0) == 0);
    }
    lemma_part(max_of(log_volume, 0), 9);
    let smc = context(b, price)->0;
    composite_stays_in_range(
        capped_share(max_of(log_volume, 0), dec(9, 0))->0,
        capped_share(volatility, dec(5, 0))->0,
        trend_of(b)->0,
        smc.score,
    );
}

/// A part of a decimal that is not negative is in range.
proof fn lemma_part(x: int, n: int)
    requires
        x >= 0,
        representable(x),
        n >= 1,
    ensures
        capped_share(x, dec(n, 0)) matches Some(r) && 0 <= r <= one(),
{
    lemma_pow10_28();
    let e = one();
    assert(0 <= x * e <= x * (n * e) && n * e > 0) by (nonlinear_arith)
        requires
            x >= 0,
            n >= 1,
            e > 0,
    ;
    rounding_stays_within(x * e, n * e, x);
    sign_is_kept(x, n * e);
}

// ── Signals ───────────────────────────────────────────────────────

/// Is a number one of no more than eight decimals?
pub open spec fn on_step(x: int) -> bool {
    x % dec(1, 8) == 0
}

/// Is a candle ordinary, with prices of no more than eight decimals?
pub open spec fn quoted_bar(b: Bar) -> bool {
    &&& ordinary_bar(b)
    &&& on_step(b.open)
    &&& on_step(b.high)
    &&& on_step(b.low)
    &&& on_step(b.close)
}

pub open spec fn quoted_bars(b: Seq<Bar>) -> bool {
    forall|i: int| 0 <= i < b.len() ==> quoted_bar(#[trigger] b[i])
}

/// A number on the step, of at most a hundred trillion, is a decimal.
proof fn lemma_on_step(x: int)
    requires
        on_step(x),
        -(100 * trillion()) <= x <= 100 * trillion(),
    ensures
        representable(x),
{
    lemma_step();
    lemma_trillions(1);
    let m = x / 100000000000000000000;
    assert(x == m * 100000000000000000000);
    assert(dec(m, 8) == x) by {
        assert(pow10(20) == dec(1, 8));
        assert(m * pow10(20) == x);
    }
}

/// Rounding moves a number of at most ten trillions by no more than a
/// trillionth.
proof fn lemma_near_by(num: int, den: int)
    requires
        den > 0,
        -((10 * trillion()) * den) <= num <= (10 * trillion()) * den,
    ensures
        nearest(num, den) matches Some(r) && r * den - 10000000000000000 * den <= num <= r * den
            + 10000000000000000 * den,
{
    lemma_trillions(10);
    lemma_step();
    let g = 10000000000000000int;
    let n = magnitude(num);
    rounding_stays_within(num, den, 10 * trillion());
    let d = den * g;
    assert(d > 0) by (nonlinear_arith)
        requires
            d == den * g,
            den > 0,
            g > 0,
    ;
    let m = n / d;
    assert(m * d <= n < (m + 1) * d) by (nonlinear_arith)
        requires
            m == n / d,
            d > 0,
    ;
    assert(0 <= m <= 10000000000000000000000000) by (nonlinear_arith)
        requires
            m * d <= n,
            0 <= n <= 100000000000000000000000000000000000000000 * den,
            d == den * g,
            g == 10000000000000000,
            den > 0,
            n < (m + 1) * d,
    ;
    let lo = m * g;
    let hi = (m + 1) * g;
    assert(pow10(16) == g) by {
        reveal_with_fuel(pow10, 17);
    }
    assert(representable(lo)) by {
        assert(dec(m, 12) == lo);
    }
    assert(representable(hi)) by {
        assert(dec(m + 1, 12) == hi);
    }
    assert(lo * den == m * d && hi * den == (m + 1) * d && lo * den >= 0 && hi * den == lo * den
        + g * den) by (nonlinear_arith)
        requires
            lo == m * g,
            hi == (m + 1) * g,
            d == den * g,
            m >= 0,
            g > 0,
            den > 0,
    ;
    nearest_is_exact(lo, den);
    nearest_is_exact(hi, den);
    nearest_is_monotone(lo * den, n, den);
    nearest_is_monotone(n, hi * den, den);
    nearest_is_odd(num, den);
    let r = nearest(n, den)->0;
    assert(lo * den <= r * den <= hi * den) by (nonlinear_arith)
        requires
            lo <= r <= hi,
            den > 0,
    ;
    assert((-r) * den == -(r * den)) by (nonlinear_arith);
}

/// The target of a trade, and how far it is from the entry at most.
proof fn lemma_reward(price: int, a: int, tp_tenths: int, above: bool)
    requires
        0 <= price <= trillion(),
        0 <= a <= trillion(),
        0 <= tp_tenths <= 45,
    ensures
        ({
            let up = product(a, dec(tp_tenths, 1));
            let tp = if above {
                o_sum(Some(price), up)
            } else {
                o_difference(Some(price), up)
            };
            tp matches Some(x) && difference(x, price) matches Some(r) && magnitude(r) <= 11
                * trillion()
        }),
{
    lemma_pow10_28();
    lemma_tenths();
    lemma_trillions(5);
    lemma_trillions(10);
    lemma_trillions(11);
    let e = one();
    let w = trillion();
    let f = dec(tp_tenths, 1);
    assert(0 <= a * f <= (5 * w) * e) by (nonlinear_arith)
        requires
            0 <= a <= w,
            f == tp_tenths * 1000000000000000000000000000,
            0 <= tp_tenths <= 45,
            e == 10000000000000000000000000000,
    ;
    rounding_stays_within(a * f, e, 5 * w);
    let up = product(a, f)->0;
    if above {
        rounding_stays_within(price + up, 1, 10 * w);
        rounding_stays_within(sum(price, up)->0 - price, 1, 11 * w);
    } else {
        rounding_stays_within(price - up, 1, 10 * w);
        rounding_stays_within(difference(price, up)->0 - price, 1, 11 * w);
    }
}

/// The part `h` of an ATR is within rounding of that part of the ranges.
proof fn lemma_part_of_ranges(ranges: int, a: int, tenths: int)
    requires
        0 <= ranges <= 14 * trillion(),
        quotient(ranges, count(14)) == Some(a),
        0 <= a <= trillion(),
        0 < tenths <= 15,
    ensures
        product(a, dec(tenths, 1)) matches Some(h) && 0 <= h <= 2 * trillion() && magnitude(
            140 * h - tenths * ranges,
        ) <= 350 * 10000000000000000,
{
    lemma_pow10_28();
    lemma_tenths();
    lemma_trillions(2);
    let e = one();
    let w = trillion();
    let g = 10000000000000000int;
    let s = dec(tenths, 1);
    assert(0 <= a * s <= (2 * w) * e && (2 * w) * e <= (10 * w) * e) by (nonlinear_arith)
        requires
            0 <= a <= w,
            s == tenths * 1000000000000000000000000000,
            0 <= tenths <= 15,
            e == 10000000000000000000000000000,
    ;
    lemma_near_by(a * s, e);
    rounding_stays_within(a * s, e, 2 * w);
    nearest_keeps_bounds(a * s, e, 0);
    let h = product(a, s)->0;
    assert(0 <= ranges * e <= (10 * w) * count(14)) by (nonlinear_arith)
        requires
            0 <= ranges <= 14 * w,
            count(14) == 14 * e,
            w >= 0,
            e > 0,
    ;
    lemma_near_by(ranges * e, count(14));
    assert(-14 * g <= 14 * a - ranges <= 14 * g) by (nonlinear_arith)
        requires
            a * (14 * e) - g * (14 * e) <= ranges * e <= a * (14 * e) + g * (14 * e),
            e > 0,
    ;
    assert(-10 * g <= 10 * h - tenths * a <= 10 * g) by (nonlinear_arith)
        requires
            h * e - g * e <= a * s <= h * e + g * e,
            s == tenths * 1000000000000000000000000000,
            e == 10000000000000000000000000000,
    ;
    assert(-(210 * g) <= 14 * (tenths * a) - tenths * ranges <= 210 * g) by (nonlinear_arith)
        requires
            -14 * g <= 14 * a - ranges <= 14 * g,
            0 < tenths <= 15,
            g > 0,
    ;
}

/// Where the ATR is the mean of ranges on the step, the stop of a trade is at
/// its entry or clearly off it.
proof fn lemma_risk(
    price: int,
    base: int,
    ranges: int,
    a: int,
    sl_tenths: int,
    below: bool,
)
    requires
        0 <= price <= trillion(),
        on_step(price),
        0 <= base <= trillion(),
        on_step(base),
        0 <= ranges <= 14 * trillion(),
        on_step(ranges),
        quotient(ranges, count(14)) == Some(a),
        0 <= a <= trillion(),
        0 < sl_tenths <= 15,
        sl_tenths == 5 || base == price,
    ensures
        ({
            let down = product(a, dec(sl_tenths, 1));
            let sl = if below {
                o_difference(Some(base), down)
            } else {
                o_sum(Some(base), down)
            };
            sl matches Some(y) && difference(price, y) matches Some(r) && (r == 0 || magnitude(r)
                >= 500000000000000000)
        }),
{
    lemma_trillions(3);
    lemma_trillions(4);
    let w = trillion();
    lemma_part_of_ranges(ranges, a, sl_tenths);
    let h = product(a, dec(sl_tenths, 1))->0;
    let x = if below {
        base - h
    } else {
        base + h
    };
    lemma_near_by(x, 1);
    rounding_stays_within(x, 1, 3 * w);
    let sl = nearest(x, 1)->0;
    let gap = price - sl;
    rounding_stays_within(gap, 1, 4 * w);
    let y = if below {
        140 * (price - base) + sl_tenths * ranges
    } else {
        140 * (price - base) - sl_tenths * ranges
    };
    if y == 0 {
        lemma_stop_at_entry(price, base, ranges, a, sl_tenths, below);
    } else {
        lemma_multiples(price, base, ranges, sl_tenths);
        lemma_off_step(y);
        assert(magnitude(140 * gap - y) <= 490 * 10000000000000000);
        let least = 500000000000000000int;
        assert(magnitude(gap) >= least);
        lemma_least(least);
        nearest_is_exact(least, 1);
        nearest_is_monotone(least, magnitude(gap), 1);
        nearest_is_odd(gap, 1);
    }
}

proof fn lemma_least(m: int)
    requires
        0 <= m <= 1000000000000000000,
    ensures
        representable(m),
{
    assert(pow10(0) == 1);
    assert(dec(m, 28) == m);
}

/// The reward of such a trade over its risk is there.
proof fn lemma_target(
    price: int,
    base: int,
    ranges: int,
    a: int,
    tp_tenths: int,
    above: bool,
    sl_tenths: int,
    below: bool,
)
    requires
        0 <= price <= trillion(),
        on_step(price),
        0 <= base <= trillion(),
        on_step(base),
        0 <= ranges <= 14 * trillion(),
        on_step(ranges),
        quotient(ranges, count(14)) == Some(a),
        0 <= tp_tenths <= 45,
        0 < sl_tenths <= 15,
        sl_tenths == 5 || base == price,
    ensures
        ({
            let up = product(a, dec(tp_tenths, 1));
            let down = product(a, dec(sl_tenths, 1));
            let tp = if above {
                o_sum(Some(price), up)
            } else {
                o_difference(Some(price), up)
            };
            let sl = if below {
                o_difference(Some(base), down)
            } else {
                o_sum(Some(base), down)
            };
            tp matches Some(x) && sl matches Some(y) && reward_over_risk(price, x, y) is Some
        }),
{
    lemma_mean(ranges, 14);
    lemma_reward(price, a, tp_tenths, above);
    lemma_risk(price, base, ranges, a, sl_tenths, below);
    let up = product(a, dec(tp_tenths, 1));
    let down = product(a, dec(sl_tenths, 1));
    let tp = if above {
        o_sum(Some(price), up)->0
    } else {
        o_difference(Some(price), up)->0
    };
    let sl = if below {
        o_difference(Some(base), down)->0
    } else {
        o_sum(Some(base), down)->0
    };
    lemma_ratio(magnitude(difference(tp, price)->0), magnitude(difference(price, sl)->0));
}

proof fn lemma_ratio(reward: int, risk: int)
    requires
        0 <= reward <= 11 * trillion(),
        risk == 0 || risk >= 500000000000000000,
    ensures
        risk != 0 ==> quotient(reward, risk) is Some,
{
    lemma_pow10_28();
    lemma_trillions(1);
    let e = one();
    let most = 10000000000000000000000000000 * e;
    assert(representable(most)) by {
        assert(dec(10000000000000000000000000000, 0) == most);
    }
    if risk != 0 {
        assert(0 <= reward * e <= most * risk) by (nonlinear_arith)
            requires
                0 <= reward <= 11 * (1000000000000 * e),
                risk >= 500000000000000000,
                e == 10000000000000000000000000000,
                most == 10000000000000000000000000000 * e,
        ;
        rounding_stays_within(reward * e, risk, most);
    }
}

proof fn lemma_tenths()
    ensures
        forall|n: int| #[trigger] dec(n, 1) == n * 1000000000000000000000000000,
{
    assert(pow10(27) == 1000000000000000000000000000) by {
        reveal_with_fuel(pow10, 28);
    }
}

/// What lies on the step and is not zero is at least a step away from it.
proof fn lemma_off_step(y: int)
    requires
        on_step(y),
        y != 0,
    ensures
        magnitude(y) >= 100000000000000000000,
{
    lemma_step();
}

proof fn lemma_multiples(price: int, base: int, ranges: int, k: int)
    requires
        on_step(price),
        on_step(base),
        on_step(ranges),
    ensures
        on_step(140 * (price - base) + k * ranges),
        on_step(140 * (price - base) - k * ranges),
{
    lemma_step();
    let s = 100000000000000000000int;
    let p = price / s;
    let b = base / s;
    let r = ranges / s;
    assert(price == p * s && base == b * s && ranges == r * s);
    assert(140 * (price - base) + k * ranges == (140 * (p - b) + k * r) * s) by (nonlinear_arith)
        requires
            price == p * s,
            base == b * s,
            ranges == r * s,
    ;
    assert(140 * (price - base) - k * ranges == (140 * (p - b) - k * r) * s) by (nonlinear_arith)
        requires
            price == p * s,
            base == b * s,
            ranges == r * s,
    ;
    lemma_whole_steps(140 * (p - b) + k * r);
    lemma_whole_steps(140 * (p - b) - k * r);
}

proof fn lemma_whole_steps(q: int)
    ensures
        on_step(q * 100000000000000000000),
{
    lemma_step();
    assert((q * 100000000000000000000) % 100000000000000000000 == 0) by (nonlinear_arith);
}

/// A stop that is exactly at the entry is computed as such.
proof fn lemma_stop_at_entry(
    price: int,
    base: int,
    ranges: int,
    a: int,
    sl_tenths: int,
    below: bool,
)
    requires
        0 <= price <= trillion(),
        on_step(price),
        0 <= base <= trillion(),
        on_step(base),
        ranges >= 0,
        quotient(ranges, count(14)) == Some(a),
        0 < sl_tenths <= 15,
        sl_tenths == 5 || base == price,
        (if below {
            140 * (price - base) + sl_tenths * ranges
        } else {
            140 * (price - base) - sl_tenths * ranges
        }) == 0,
    ensures
        ({
            let down = product(a, dec(sl_tenths, 1));
            let sl = if below {
                o_difference(Some(base), down)
            } else {
                o_sum(Some(base), down)
            };
            sl == Some(price) && difference(price, price) == Some(0int)
        }),
{
    let off = if below {
        base - price
    } else {
        price - base
    };
    assert(ranges == 28 * off) by {
        if sl_tenths != 5 {
            assert(ranges == 0) by (nonlinear_arith)
                requires
                    sl_tenths * ranges == 0,
                    sl_tenths > 0,
            ;
        }
    }
    lemma_step_sums(base, price);
    lemma_step_sums(price, base);
    lemma_step_sums(off, off);
    lemma_trillions(1);
    lemma_on_step(off);
    lemma_on_step(off + off);
    lemma_on_step(price);
    lemma_exact_part(ranges, a, off, sl_tenths);
    exact_results_stand(base, off, price);
    neutral_elements(price);
}

/// The mean of fourteen ranges that make up 28 times a decimal, and its half.
proof fn lemma_exact_part(ranges: int, a: int, off: int, tenths: int)
    requires
        ranges == 28 * off,
        representable(off),
        representable(off + off),
        quotient(ranges, count(14)) == Some(a),
        tenths == 5 || off == 0,
    ensures
        product(a, dec(tenths, 1)) == Some(off),
{
    lemma_pow10_28();
    lemma_tenths();
    let e = one();
    let n = count(14);
    assert(ranges * e == (off + off) * n) by (nonlinear_arith)
        requires
            ranges == 28 * off,
            n == 14 * e,
    ;
    exact_results_stand(ranges, n, off + off);
    assert(a == off + off);
    let s = dec(tenths, 1);
    assert(a * s == off * e) by (nonlinear_arith)
        requires
            a == off + off,
            s == tenths * 1000000000000000000000000000,
            tenths == 5 || off == 0,
            e == 10000000000000000000000000000,
    ;
    exact_results_stand(a, s, off);
}

proof fn lemma_step_sums(x: int, y: int)
    requires
        on_step(x),
        on_step(y),
    ensures
        on_step(x + y),
        on_step(x - y),
        on_step(-x),
{
    lemma_step();
}

proof fn lemma_quoted_range(b: Seq<Bar>, i: int)
    requires
        quoted_bars(b),
        0 < i < b.len(),
    ensures
        true_range(b, i) matches Some(r) && on_step(r),
{
    lemma_trillions(1);
    let k = b[i];
    let p = b[i - 1];
    assert(quoted_bar(k));
    assert(quoted_bar(p));
    lemma_step_sums(k.high, k.low);
    lemma_step_sums(k.high, p.close);
    lemma_step_sums(k.low, p.close);
    lemma_on_step(k.high - k.low);
    lemma_on_step(k.high - p.close);
    lemma_on_step(k.low - p.close);
    nearest_is_exact(k.high - k.low, 1);
    nearest_is_exact(k.high - p.close, 1);
    nearest_is_exact(k.low - p.close, 1);
    lemma_step_sums(k.high - p.close, k.high - p.close);
    lemma_step_sums(k.low - p.close, k.low - p.close);
}

proof fn lemma_quoted_is_ordinary(b: Seq<Bar>)
    requires
        quoted_bars(b),
    ensures
        ordinary_bars(b),
{
    assert forall|i: int| 0 <= i < b.len() implies ordinary_bar(#[trigger] b[i]) by {
        assert(quoted_bar(b[i]));
    }
}

/// The ranges of quoted candles are on the step, and their sum is exact.
proof fn lemma_quoted_ranges(b: Seq<Bar>, lo: int, hi: int)
    requires
        quoted_bars(b),
        0 < lo <= hi <= b.len(),
        hi - lo <= 14,
    ensures
        total_range(b, lo, hi) matches Some(t) && on_step(t) && 0 <= t <= (hi - lo) * trillion(),
    decreases hi - lo,
{
    lemma_quoted_is_ordinary(b);
    lemma_total_range(b, lo, hi);
    lemma_step();
    if hi > lo {
        lemma_quoted_ranges(b, lo, hi - 1);
        lemma_quoted_range(b, hi - 1);
        lemma_true_range(b, hi - 1);
        let r = true_range(b, hi - 1)->0;
        let t = total_range(b, lo, hi - 1)->0;
        let w = trillion();
        assert((hi - 1 - lo) * w <= 13 * w) by (nonlinear_arith)
            requires
                hi - 1 - lo <= 13,
                w >= 0,
        ;
        lemma_step_sums(t, r);
        lemma_on_step(t + r);
        nearest_is_exact(t + r, 1);
    }
}

/// Is an order block one of quoted candles?
spec fn quoted_block(k: Block) -> bool {
    &&& 0 <= k.low <= trillion()
    &&& 0 <= k.high <= trillion()
    &&& on_step(k.low)
    &&& on_step(k.high)
    &&& 0 <= k.strength <= dec(100, 0)
}

proof fn lemma_quoted_blocks(b: Seq<Bar>, i: int)
    requires
        quoted_bars(b),
        i <= b.len(),
    ensures
        blocks_before(b, i) matches Some(s) && forall|j: int|
            0 <= j < s.len() ==> quoted_block(#[trigger] s[j]),
    decreases i,
{
    if i > 1 {
        lemma_quoted_blocks(b, i - 1);
        lemma_quoted_is_ordinary(b);
        assert(quoted_bar(b[i - 1]));
        lemma_block(b, i - 1);
    }
}

/// What the setups need of the readings for every offer to be there.
spec fn sound(m: Readings, ranges: int) -> bool {
    &&& 0 <= m.price <= trillion()
    &&& on_step(m.price)
    &&& 0 <= ranges <= 14 * trillion()
    &&& on_step(ranges)
    &&& quotient(ranges, count(14)) == Some(m.atr)
    &&& 0 <= m.smc.score <= one()
    &&& forall|j: int|
        0 <= j < m.smc.order_blocks.len() ==> quoted_block(#[trigger] m.smc.order_blocks[j])
}

proof fn lemma_levels(m: Readings, ranges: int, tp_tenths: int, sl_tenths: int, dir: Direction)
    requires
        sound(m, ranges),
        0 <= tp_tenths <= 45,
        0 < sl_tenths <= 15,
    ensures
        levels(m.price, m.atr, dec(tp_tenths, 1), dec(sl_tenths, 1), dir).0 matches Some(tp)
            && levels(m.price, m.atr, dec(tp_tenths, 1), dec(sl_tenths, 1), dir).1 matches Some(sl)
            && reward_over_risk(m.price, tp, sl) is Some,
{
    let up = dir == Direction::Long;
    lemma_target(m.price, m.price, ranges, m.atr, tp_tenths, up, sl_tenths, up);
}

proof fn lemma_bounce(
    m: Readings,
    ranges: int,
    symbol: Seq<char>,
    cfg: EngineConfig,
    ob: Block,
)
    requires
        sound(m, ranges),
        quoted_block(ob),
    ensures
        bounce(m, symbol, cfg, ob) is Some,
{
    lemma_step();
    lemma_tenths();
    lemma_within(ob, m.price, dec(6, 1));
    lemma_target(m.price, ob.low, ranges, m.atr, 32, true, 5, true);
    lemma_target(m.price, ob.high, ranges, m.atr, 32, false, 5, false);
    lemma_bounce_confidence(ob.strength, m.smc.score, dec(96, 2));
    lemma_bounce_confidence(ob.strength, m.smc.score, dec(95, 2));
}

proof fn lemma_bounce_confidence(strength: int, score: int, limit: int)
    requires
        0 <= strength <= dec(100, 0),
    ensures
        bounce_confidence(strength, score, limit) is Some,
{
    lemma_pow10_28();
    lemma_pow10_adds(2, 26);
    assert(pow10(2) == 100) by {
        reveal_with_fuel(pow10, 3);
    }
    let e = one();
    let x = if strength <= 30 * e {
        strength
    } else {
        30 * e
    };
    assert(0 <= x * e <= (1 * e) * (300 * e)) by (nonlinear_arith)
        requires
            0 <= x <= 30 * e,
            e > 0,
    ;
    nearest_is_there(x * e, 300 * e, 1);
    nearest_keeps_bounds(x * e, 300 * e, 1);
    let part = quotient(x, dec(300, 0))->0;
    nearest_is_there(dec(76, 2) + part, 1, 2);
    nearest_keeps_bounds(dec(76, 2) + part, 1, 2);
    let most = sum(dec(76, 2), part)->0;
    nearest_is_there(most + dec(8, 2), 1, 3);
    nearest_is_there(most, 1, 3);
}

proof fn lemma_bounces(
    m: Readings,
    ranges: int,
    symbol: Seq<char>,
    cfg: EngineConfig,
    n: int,
)
    requires
        sound(m, ranges),
        n <= m.smc.order_blocks.len(),
    ensures
        bounces(m, symbol, cfg, n) is Some,
    decreases n,
{
    if n > 0 {
        lemma_bounces(m, ranges, symbol, cfg, n - 1);
        lemma_bounce(m, ranges, symbol, cfg, m.smc.order_blocks[n - 1]);
    }
}

proof fn lemma_surge(
    m: Readings,
    ranges: int,
    symbol: Seq<char>,
    cfg: EngineConfig,
    spike: int,
)
    requires
        sound(m, ranges),
        0 <= spike <= dec(10000000000000000000000000000, 0),
    ensures
        surge(m, symbol, cfg, Some(spike)) is Some,
{
    lemma_pow10_28();
    lemma_levels(m, ranges, 25, 10, Direction::Long);
    lemma_levels(m, ranges, 25, 10, Direction::Short);
    lemma_pow10_adds(2, 26);
    assert(pow10(2) == 100) by {
        reveal_with_fuel(pow10, 3);
    }
    let e = one();
    let w = 10000000000000000000000000000int;
    assert(0 <= spike * e <= (w * e) * (25 * e)) by (nonlinear_arith)
        requires
            0 <= spike <= w * e,
            e > 0,
            w > 0,
    ;
    nearest_is_there(spike * e, 25 * e, w);
    nearest_keeps_bounds(spike * e, 25 * e, w);
    let part = quotient(spike, dec(25, 0))->0;
    nearest_is_there(dec(75, 2) + part, 1, w + 1);
}

proof fn lemma_candidates(
    m: Readings,
    ranges: int,
    b: Seq<Bar>,
    symbol: Seq<char>,
    cfg: EngineConfig,
)
    requires
        sound(m, ranges),
        volume_spike(b) matches Some(x) && 0 <= x <= dec(10000000000000000000000000000, 0),
    ensures
        candidates(m, b, symbol, cfg) is Some,
{
    lemma_bounces(m, ranges, symbol, cfg, m.smc.order_blocks.len() as int);
    assert(reversal(m, symbol, cfg) is Some) by {
        if let Some(dir) = m.smc.choch {
            lemma_levels(m, ranges, 45, 15, dir);
        }
        lemma_percent(m.smc.score);
    }
    assert(breakout(m, symbol, cfg) is Some) by {
        if let Some(dir) = m.smc.bos {
            lemma_levels(m, ranges, 35, 12, dir);
        }
    }
    assert(sweep(m, symbol, cfg) is Some) by {
        if let Some(dir) = m.smc.liq_sweep {
            lemma_levels(m, ranges, 40, 10, dir);
        }
    }
    assert(divergent(m, symbol, cfg) is Some) by {
        if let Some(dir) = m.divergence {
            lemma_levels(m, ranges, 30, 15, dir);
        }
    }
    lemma_surge(m, ranges, symbol, cfg, volume_spike(b)->0);
}

proof fn lemma_percent(score: int)
    requires
        0 <= score <= one(),
    ensures
        product(score, dec(100, 0)) is Some,
{
    lemma_pow10_28();
    let e = one();
    assert(0 <= score * (100 * e) <= (100 * e) * e) by (nonlinear_arith)
        requires
            0 <= score <= e,
            e > 0,
    ;
    nearest_is_there(score * (100 * e), e, 100);
}

proof fn lemma_read_from(b: Seq<Bar>, capital: int, kelly_f: int)
    requires
        b.len() >= 55,
        readings(b, capital, kelly_f) is Some,
        atr_of(b, 14) is Ok,
    ensures
        ({
            let m = readings(b, capital, kelly_f)->0;
            &&& m.price == closes_of(b)[b.len() - 1]
            &&& atr_of(b, 14) == Ok::<int, IndicatorError>(m.atr)
            &&& context(b, m.price) == Some(m.smc)
        }),
{
}

proof fn lemma_sound(b: Seq<Bar>, capital: int, kelly_f: int)
    requires
        quoted_bars(b),
        55 <= b.len(),
        readings(b, capital, kelly_f) is Some,
    ensures
        sound(readings(b, capital, kelly_f)->0, total_range(b, b.len() - 14, b.len() as int)->0),
{
    let n = b.len() as int;
    lemma_quoted_is_ordinary(b);
    atr_of_ordinary_candles(b, 14);
    lemma_read_from(b, capital, kelly_f);
    let m = readings(b, capital, kelly_f)->0;
    lemma_quoted_ranges(b, n - 14, n);
    assert(quoted_bar(b[n - 1]));
    context_score_range(b, m.price);
    lemma_quoted_blocks(b, n - 3);
    assert(Some(m.smc.order_blocks) == blocks_before(b, n - 3));
    let ranges = total_range(b, n - 14, n)->0;
    assert(n - (n - 14) == 14);
    assert(0 <= ranges <= 14 * trillion());
    lemma_pow10_28();
    assert forall|j: int| 0 <= j < m.smc.order_blocks.len() implies quoted_block(
        #[trigger] m.smc.order_blocks[j],
    ) by {
        assert(blocks_before(b, n - 3)->0[j] == m.smc.order_blocks[j]);
    }
}

/// Of at most ten thousand ordinary candles whose prices have no more than
/// eight decimals, the engine always says which signals there are, for a share
/// of the capital within 0 and 1.
pub proof fn ordinary_markets_are_judged(
    symbol: Seq<char>,
    b: Seq<Bar>,
    capital: int,
    kelly_f: int,
    cfg: EngineConfig,
)
    requires
        quoted_bars(b),
        b.len() <= 10000,
        representable(capital),
        0 <= kelly_f <= one(),
    ensures
        chosen(symbol, b, capital, kelly_f, cfg) is Some,
{
    if b.len() >= 55 {
        let n = b.len() as int;
        lemma_quoted_is_ordinary(b);
        ordinary_markets_are_read(b, capital, kelly_f);
        lemma_sound(b, capital, kelly_f);
        let m = readings(b, capital, kelly_f)->0;
        let ranges = total_range(b, n - 14, n)->0;
        spike_of_ordinary_candles(b);
        lemma_candidates(m, ranges, b, symbol, cfg);
    }
}

} // verus!
