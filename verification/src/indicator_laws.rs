//! What the indicators of [`crate::indicators`] say of the prices they are
//! made from.

use vstd::prelude::*;

use crate::decimal::{
    a_difference_shows, dec, difference, lemma_pow10_28, magnitude, nearest_is_exact,
    nearest_is_odd, nearest_is_representable, nearest_is_there, nearest_keeps_bounds,
    neutral_elements, o_product, o_quotient, o_sum, one, pow10, product, quotient, representable,
    rounding_is_close, rounding_keeps_order, rounding_shows, rounding_stays_below_zero, sum,
    MAX_MANTISSA,
};
use crate::indicators::{
    an_index_is_there, atr_of, closes_of, count, divergence_of, ema_at, ema_of, ema_weight, largest,
    lemma_extreme_member, lemma_extremes, lemma_series_length, lemma_smoothed_sign, line_at,
    macd_line, macd_of, rsi_of, rsi_series, smallest, smoothed, stoch_rsi_of, stochastic,
    strength_index, total, total_moved, total_range, total_stochastic, total_value, total_volume,
    true_range, typical, vwap_of, IndicatorError,
};
use crate::sums::{adds_exactly, sum_of, sum_stays_exact};
use crate::types::{Bar, Direction};

verus! {

// ── Exponential moving average ────────────────────────────────────

/// The weight of a period times the period and one is two, but for less than a
/// unit of the last place each time, and so the rest is what one lacks of it.
pub proof fn weights_are_two_by_the_period_and_one(period: int)
    requires
        0 < period < MAX_MANTISSA,
    ensures
        ema_weight(period) matches Some(k) && {
            &&& 0 <= k <= one()
            &&& 2 * one() - (period + 1) <= k * (period + 1) <= 2 * one() + (period + 1)
            &&& difference(one(), k) == Some(one() - k)
        },
{
    lemma_pow10_28();
    assert(pow10(0) == 1);
    let e = one();
    let d = count(period) + e;
    assert(dec(period + 1, 0) == d) by (nonlinear_arith)
        requires
            dec(period + 1, 0) == (period + 1) * e,
            d == period * e + e,
    ;
    assert(representable(d)) by {
        assert(dec(period + 1, 0) == d);
    }
    nearest_is_exact(d, 1);
    assert(dec(2, 0) == 2 * e);
    let num = (2 * e) * e;
    let p = period + 1;
    assert(d == p * e && d > 0 && 0 <= num <= (1 * e) * d) by (nonlinear_arith)
        requires
            d == period * e + e,
            p == period + 1,
            p >= 2,
            num == (2 * e) * e,
            e > 0,
    ;
    nearest_is_there(num, d, 1);
    nearest_keeps_bounds(num, d, 1);
    let k = ema_weight(period)->0;
    let q = (2 * e) / p;
    assert(0 <= q <= e && q * p <= 2 * e < (q + 1) * p) by (nonlinear_arith)
        requires
            q == (2 * e) / p,
            p >= 2,
            e > 0,
    ;
    assert(representable(q)) by {
        assert(dec(q, 28) == q);
    }
    assert(representable(q + 1)) by {
        assert(dec(q + 1, 28) == q + 1);
    }
    assert(q * d <= num <= (q + 1) * d) by (nonlinear_arith)
        requires
            q * p <= 2 * e < (q + 1) * p,
            d == p * e,
            num == (2 * e) * e,
            e > 0,
    ;
    nearest_is_exact(q, d);
    nearest_is_exact(q + 1, d);
    rounding_keeps_order(q * d, num, d);
    rounding_keeps_order(num, (q + 1) * d, d);
    assert(q <= k <= q + 1);
    assert(2 * e - p <= k * p <= 2 * e + p) by (nonlinear_arith)
        requires
            q * p <= 2 * e < (q + 1) * p,
            q <= k <= q + 1,
            p >= 2,
    ;
    assert(representable(e - k)) by {
        assert(dec(e - k, 28) == e - k);
    }
    nearest_is_exact(e - k, 1);
}

/// A longer period weighs a new value less.
pub proof fn longer_periods_weigh_less(period: int, longer: int)
    requires
        0 < period < longer <= 10_000_000_000_000,
    ensures
        ema_weight(period) is Some && ema_weight(longer) is Some,
        ema_weight(period)->0 > ema_weight(longer)->0,
{
    weights_are_two_by_the_period_and_one(period);
    weights_are_two_by_the_period_and_one(longer);
    let k = ema_weight(period)->0;
    let l = ema_weight(longer)->0;
    let e = one();
    if k <= l {
        assert(l * (longer - period) <= period + longer + 2) by (nonlinear_arith)
            requires
                2 * e - (period + 1) <= k * (period + 1),
                l * (longer + 1) <= 2 * e + (longer + 1),
                k <= l,
                period > 0,
        ;
        assert(l <= period + longer + 2) by (nonlinear_arith)
            requires
                l * (longer - period) <= period + longer + 2,
                longer - period >= 1,
                l >= 0,
        ;
        assert(l * (longer + 1) <= 30_000_000_000_000 * 10_000_000_000_001) by (nonlinear_arith)
            requires
                0 <= l <= 30_000_000_000_000,
                0 <= longer + 1 <= 10_000_000_000_001,
        ;
    }
}

proof fn lemma_total_prefix(c: Seq<int>, x: int, n: int)
    requires
        n <= c.len(),
    ensures
        total(c.push(x), n) == total(c, n),
    decreases n,
{
    if n > 0 {
        lemma_total_prefix(c, x, n - 1);
    }
}

proof fn lemma_ema_prefix(c: Seq<int>, x: int, period: int, i: int)
    requires
        0 < period,
        period + i <= c.len(),
        period <= c.len(),
    ensures
        ema_at(c.push(x), period, i) == ema_at(c, period, i),
    decreases i,
{
    if i > 0 {
        lemma_ema_prefix(c, x, period, i - 1);
        assert(c.push(x)[period + i - 1] == c[period + i - 1]);
    } else {
        lemma_total_prefix(c, x, period);
    }
}

/// One more value adds one average and leaves those before as they are: the
/// weight times the value and what one lacks of the weight times the average
/// before.  The first average is the mean of the first values.
pub proof fn averages_move_with_each_value(c: Seq<int>, x: int, period: int)
    requires
        0 < period < MAX_MANTISSA,
        period <= c.len(),
    ensures
        ema_of(c.push(x), period) matches Ok(t) ==> {
            let k = ema_weight(period)->0;
            &&& ema_of(c, period) matches Ok(s)
            &&& t == s.push(t.last())
            &&& s.len() == c.len() - period + 1
            &&& Some(t.last()) == o_sum(product(x, k), product(s.last(), one() - k))
        },
        ema_of(c, period) matches Ok(s) && (ema_of(c.push(x), period) is Err ==> o_sum(
            product(x, ema_weight(period)->0),
            product(s.last(), one() - ema_weight(period)->0),
        ) is None) || ema_of(c, period) == Err::<Seq<int>, IndicatorError>(
            IndicatorError::OutOfRange,
        ),
{
    weights_are_two_by_the_period_and_one(period);
    let n = c.len() - period;
    lemma_ema_prefix(c, x, period, n);
    assert(c.push(x)[period + n] == x);
    if let Ok(t) = ema_of(c.push(x), period) {
        let s = ema_of(c, period)->Ok_0;
        assert forall|i: int| 0 <= i <= n implies #[trigger] s[i] == t[i] by {
            lemma_ema_prefix(c, x, period, i);
        }
        assert(t =~= s.push(t.last()));
    }
}

proof fn lemma_exact_total(c: Seq<int>, n: int)
    requires
        0 <= n <= c.len(),
        adds_exactly(0, c),
    ensures
        total(c, n) == Some(sum_of(c.take(n))),
    decreases n,
{
    if n > 0 {
        lemma_exact_total(c, n - 1);
        sum_stays_exact(0, c, n - 1);
    }
}

/// Of just as many values as the period there is one average, their sum by
/// their number.
pub proof fn averages_start_with_a_mean(c: Seq<int>)
    requires
        c.len() > 0,
        adds_exactly(0, c),
    ensures
        ema_of(c, c.len() as int) == (match quotient(sum_of(c), c.len() * one()) {
            Some(m) => Ok::<Seq<int>, IndicatorError>(seq![m]),
            None => Err(IndicatorError::OutOfRange),
        }),
{
    let n = c.len() as int;
    lemma_exact_total(c, n);
    assert(c.take(n) =~= c);
    if let Some(m) = quotient(sum_of(c), n * one()) {
        assert(ema_of(c, n)->Ok_0 =~= seq![m]);
    }
}

/// The line of the MACD is at each candle the average of 12 less the average of
/// 26 that end there; its signal is the average of 9 of the line, and its
/// histogram the line less the signal.
pub proof fn macd_is_the_gap_of_two_averages(c: Seq<int>)
    ensures
        macd_of(c) matches Ok(m) ==> {
            &&& c.len() >= 34
            &&& ema_of(c, 12) is Ok && ema_of(c, 26) is Ok
            &&& exists|line: Seq<int>| #[trigger]
                ema_of(line, 9) is Ok && line.len() == c.len() - 25 && (forall|i: int|
                    0 <= i < line.len() ==> difference(
                        ema_of(c, 12)->Ok_0[i + 14],
                        ema_of(c, 26)->Ok_0[i],
                    ) == Some(#[trigger] line[i])) && m.macd == line.last() && m.signal == ema_of(
                    line,
                    9,
                )->Ok_0.last() && difference(m.macd, m.signal) == Some(m.histogram)
        },
{
    if let Ok(m) = macd_of(c) {
        let fast = ema_of(c, 12)->Ok_0;
        let slow = ema_of(c, 26)->Ok_0;
        let line = macd_line(fast, slow)->Ok_0;
        assert(ema_of(line, 9) is Ok);
        assert forall|i: int| 0 <= i < line.len() implies difference(fast[i + 14], slow[i]) == Some(
            #[trigger] line[i],
        ) by {
            assert(line_at(fast, slow, i) is Some);
        }
    }
}

// ── Relative strength ─────────────────────────────────────────────

/// The rises (or the falls) from each value to the next; zero where it did not
/// rise (or fall).
pub open spec fn moves(c: Seq<int>, up: bool) -> Seq<int> {
    Seq::new(
        (c.len() - 1) as nat,
        |i: int|
            if up && c[i + 1] > c[i] {
                c[i + 1] - c[i]
            } else if !up && c[i] > c[i + 1] {
                c[i] - c[i + 1]
            } else {
                0
            },
    )
}

/// Is the gap from each value to the next a decimal?
pub open spec fn gaps_are_exact(c: Seq<int>) -> bool {
    forall|i: int| 0 <= i < c.len() - 1 ==> representable((#[trigger] c[i + 1]) - c[i])
}

proof fn lemma_exact_moves(c: Seq<int>, n: int, up: bool)
    requires
        0 <= n < c.len(),
        gaps_are_exact(c),
        adds_exactly(0, moves(c, up)),
    ensures
        total_moved(c, n, up) == Some(sum_of(moves(c, up).take(n))),
    decreases n,
{
    if n > 0 {
        lemma_exact_moves(c, n - 1, up);
        sum_stays_exact(0, moves(c, up), n - 1);
        let i = n - 1;
        assert(representable(c[i + 1] - c[i]));
        nearest_is_exact(c[i + 1] - c[i], 1);
    }
}

/// Over just the period, the smoothed rise is the sum of all rises by the
/// period, and the smoothed fall the sum of all falls by it.
pub proof fn smoothing_starts_with_a_mean(c: Seq<int>, up: bool)
    requires
        c.len() > 1,
        gaps_are_exact(c),
        adds_exactly(0, moves(c, up)),
    ensures
        smoothed(c, c.len() - 1, c.len() - 1, up) == quotient(
            sum_of(moves(c, up)),
            (c.len() - 1) * one(),
        ),
{
    lemma_exact_moves(c, c.len() - 1, up);
    assert(moves(c, up).take(c.len() - 1) =~= moves(c, up));
}

proof fn lemma_smoothed_prefix(c: Seq<int>, x: int, period: int, n: int, up: bool)
    requires
        0 < period < c.len(),
        n < c.len(),
    ensures
        smoothed(c.push(x), period, n, up) == smoothed(c, period, n, up),
    decreases n - period,
{
    if n <= period {
        lemma_moved_prefix(c, x, period, up);
    } else {
        lemma_smoothed_prefix(c, x, period, n - 1, up);
        assert(c.push(x)[n] == c[n] && c.push(x)[n - 1] == c[n - 1]);
    }
}

proof fn lemma_moved_prefix(c: Seq<int>, x: int, n: int, up: bool)
    requires
        n < c.len(),
    ensures
        total_moved(c.push(x), n, up) == total_moved(c, n, up),
    decreases n,
{
    if n > 0 {
        lemma_moved_prefix(c, x, n - 1, up);
        assert(c.push(x)[n] == c[n] && c.push(x)[n - 1] == c[n - 1]);
    }
}

/// One more value counts for one part of the period in the smoothed rise, and
/// the smoothed rise before for all other parts; and so of the fall.
pub proof fn one_more_value_counts_for_one_part(c: Seq<int>, x: int, period: int, up: bool)
    requires
        0 < period < c.len(),
    ensures
        ({
            let before = smoothed(c, period, c.len() - 1, up);
            let rise = difference(x, c.last());
            let part = if up && x > c.last() {
                rise
            } else if !up && x < c.last() {
                match rise {
                    Some(r) => Some(-r),
                    None => None,
                }
            } else {
                Some(0)
            };
            rise is Some ==> smoothed(c.push(x), period, c.len() as int, up) == o_quotient(
                o_sum(o_product(before, Some((period - 1) * one())), part),
                Some(period * one()),
            )
        }),
{
    let n = c.len() as int;
    lemma_smoothed_prefix(c, x, period, n - 1, up);
    assert(c.push(x)[n] == x && c.push(x)[n - 1] == c.last());
    let g = x - c.last();
    if let Some(r) = difference(x, c.last()) {
        if g >= 0 {
            nearest_keeps_bounds(g, 1, 0);
        }
        if g <= 0 {
            rounding_stays_below_zero(g, 1);
        }
        if g > 0 {
            rounding_shows(g, 1);
        } else if g < 0 {
            nearest_is_odd(g, 1);
            rounding_shows(-g, 1);
        }
    }
}

proof fn lemma_index_of_less(g: int, l: int, r: int, base: int, part: int, x: int)
    requires
        0 <= g <= l,
        l > 0,
        g * one() - l <= r * l <= g * one() + l,
        0 <= r <= one(),
        base == one() + r,
        100 * (one() * one()) - 1002 * one() <= part * base <= 100 * (one() * one()) + 1002 * one(),
        0 <= part <= 100 * one(),
        -1001 <= x - (100 * one() - part) <= 1001,
    ensures
        -(2200 * (g + l)) <= x * (g + l) - (100 * one()) * g <= 2200 * (g + l),
{
    let e = one();
    let d1 = r * l - g * e;
    let d2 = part * base - 100 * (e * e);
    let d3 = x - (100 * e - part);
    let w = g + l;
    assert(w * e == base * l - d1) by (nonlinear_arith)
        requires
            w == g + l,
            base == e + r,
            d1 == r * l - g * e,
    ;
    let we = w * e;
    let pb = part * base;
    assert(part * we == pb * l - part * d1) by (nonlinear_arith)
        requires
            we == base * l - d1,
            pb == part * base,
    ;
    assert(pb * l == (100 * (e * e)) * l + d2 * l) by (nonlinear_arith)
        requires
            pb == 100 * (e * e) + d2,
    ;
    assert(x * we == (100 * e) * we - part * we + d3 * we) by (nonlinear_arith)
        requires
            x == 100 * e - part + d3,
    ;
    assert((100 * e) * we == ((100 * e) * g) * e + (100 * (e * e)) * l) by (nonlinear_arith)
        requires
            we == (g + l) * e,
    ;
    assert((x * w - (100 * e) * g) * e == x * we - ((100 * e) * g) * e) by (nonlinear_arith)
        requires
            we == w * e,
    ;
    let y = x * w - (100 * e) * g;
    assert(-(1001 * (w * e)) <= d3 * (w * e) <= 1001 * (w * e)) by (nonlinear_arith)
        requires
            -1001 <= d3 <= 1001,
            w >= 0,
            e > 0,
    ;
    assert(-(1002 * (e * l)) <= d2 * l <= 1002 * (e * l)) by (nonlinear_arith)
        requires
            -(1002 * e) <= d2 <= 1002 * e,
            l > 0,
    ;
    assert(-(100 * (e * l)) <= part * d1 <= 100 * (e * l)) by (nonlinear_arith)
        requires
            0 <= part <= 100 * e,
            -l <= d1 <= l,
            l > 0,
    ;
    assert(e * l <= w * e) by (nonlinear_arith)
        requires
            w == g + l,
            g >= 0,
            e > 0,
    ;
    assert(-(2200 * w) <= y <= 2200 * w) by (nonlinear_arith)
        requires
            -(2200 * (w * e)) <= y * e <= 2200 * (w * e),
            e > 0,
    ;
}

proof fn lemma_index_of_more(g: int, l: int, r: int, base: int, x: int)
    requires
        0 < l <= g,
        l * one() - g <= r * g <= l * one() + g,
        0 <= r <= one(),
        base == one() + r,
        100 * (one() * one()) - 1002 * one() <= x * base <= 100 * (one() * one()) + 1002 * one(),
        0 <= x <= 100 * one(),
    ensures
        -(2200 * (g + l)) <= x * (g + l) - (100 * one()) * g <= 2200 * (g + l),
{
    let e = one();
    let d1 = r * g - l * e;
    let d2 = x * base - 100 * (e * e);
    let w = g + l;
    let y = x * w - (100 * e) * g;
    let we = w * e;
    let bg = base * g;
    let xb = x * base;
    assert(bg == we + d1) by (nonlinear_arith)
        requires
            bg == base * g,
            base == e + r,
            we == (g + l) * e,
            d1 == r * g - l * e,
    ;
    assert(x * bg == x * we + x * d1) by (nonlinear_arith)
        requires
            bg == we + d1,
    ;
    assert(x * bg == xb * g) by (nonlinear_arith)
        requires
            bg == base * g,
            xb == x * base,
    ;
    assert(xb * g == (100 * (e * e)) * g + d2 * g) by (nonlinear_arith)
        requires
            xb == 100 * (e * e) + d2,
    ;
    assert(((100 * e) * g) * e == (100 * (e * e)) * g) by (nonlinear_arith);
    assert(y * e == x * we - ((100 * e) * g) * e) by (nonlinear_arith)
        requires
            y == x * w - (100 * e) * g,
            we == w * e,
    ;
    assert(-(1002 * (e * g)) <= d2 * g <= 1002 * (e * g)) by (nonlinear_arith)
        requires
            -(1002 * e) <= d2 <= 1002 * e,
            g > 0,
    ;
    assert(-(100 * (e * g)) <= x * d1 <= 100 * (e * g)) by (nonlinear_arith)
        requires
            0 <= x <= 100 * e,
            -g <= d1 <= g,
            g > 0,
    ;
    assert(e * g <= w * e) by (nonlinear_arith)
        requires
            w == g + l,
            l >= 0,
            e > 0,
    ;
    assert(-(2200 * w) <= y <= 2200 * w) by (nonlinear_arith)
        requires
            -(2200 * (w * e)) <= y * e <= 2200 * (w * e),
            e > 0,
    ;
}

/// The ratio of a part to a whole is between the two numbers of 28 decimals
/// around the exact one.
proof fn lemma_ratio_is_close(less: int, more: int)
    requires
        0 <= less <= more,
        more > 0,
    ensures
        quotient(less, more) matches Some(r) && 0 <= r <= one() && less * one() - more <= r * more
            <= less * one() + more,
        sum(one(), quotient(less, more)->0) == Some(one() + quotient(less, more)->0),
{
    lemma_pow10_28();
    assert(pow10(0) == 1);
    let e = one();
    let num = less * e;
    assert(0 <= num <= (1 * e) * more) by (nonlinear_arith)
        requires
            num == less * e,
            0 <= less <= more,
            e > 0,
    ;
    nearest_is_there(num, more, 1);
    nearest_keeps_bounds(num, more, 1);
    let r = quotient(less, more)->0;
    let q = num / more;
    assert(0 <= q <= e && q * more <= num < (q + 1) * more) by (nonlinear_arith)
        requires
            q == num / more,
            0 <= num <= e * more,
            more > 0,
            e > 0,
    ;
    assert(representable(q)) by {
        assert(dec(q, 28) == q);
    }
    assert(representable(q + 1)) by {
        assert(dec(q + 1, 28) == q + 1);
    }
    nearest_is_exact(q, more);
    nearest_is_exact(q + 1, more);
    rounding_keeps_order(q * more, num, more);
    rounding_keeps_order(num, (q + 1) * more, more);
    assert(num - more <= r * more <= num + more) by (nonlinear_arith)
        requires
            q * more <= num < (q + 1) * more,
            q <= r <= q + 1,
            more > 0,
    ;
    assert(representable(e + r)) by {
        assert(dec(e + r, 28) == e + r);
    }
    nearest_is_exact(e + r, 1);
}

/// An index is 100 without a fall; else it is the rise in percent of rise and
/// fall together, to 26 digits.
pub proof fn the_index_is_the_share_of_the_rise(gain: int, loss: int)
    requires
        gain >= 0,
        loss >= 0,
    ensures
        strength_index(gain, loss) matches Some(x) && {
            &&& loss == 0 ==> x == 100 * one()
            &&& loss > 0 ==> -(2200 * (gain + loss)) <= x * (gain + loss) - (100 * one()) * gain
                <= 2200 * (gain + loss)
        },
{
    lemma_pow10_28();
    an_index_is_there(gain, loss);
    if loss > 0 {
        let e = one();
        let d: int = 1_000_000_000_000_000_000_000_000_000;
        let (less, more) = if gain <= loss {
            (gain, loss)
        } else {
            (loss, gain)
        };
        lemma_ratio_is_close(less, more);
        let r = quotient(less, more)->0;
        let base = e + r;
        let num = (100 * e) * e;
        rounding_is_close(num, base);
        let part = quotient(100 * e, base)->0;
        assert(0 <= num <= (100 * e) * base) by (nonlinear_arith)
            requires
                num == (100 * e) * e,
                base >= e,
                e > 0,
        ;
        nearest_is_there(num, base, 100);
        nearest_keeps_bounds(num, base, 100);
        let y = part * base - num;
        assert(-(1002 * e) <= y <= 1002 * e) by (nonlinear_arith)
            requires
                magnitude(y) * d <= num + base * d,
                num == (100 * e) * e,
                base <= 2 * e,
                e == 10 * d,
                d > 0,
                magnitude(y) >= y,
                magnitude(y) >= -y,
        ;
        assert(num == 100 * (e * e)) by (nonlinear_arith)
            requires
                num == (100 * e) * e,
        ;
        if gain <= loss {
            let z = 100 * e - part;
            rounding_is_close(z, 1);
            let x = strength_index(gain, loss)->0;
            assert(x == difference(100 * e, part)->0);
            assert(magnitude(x - z) * d <= z + d);
            assert(-1001 <= x - z <= 1001);
            lemma_index_of_less(gain, loss, r, base, part, x);
        } else {
            lemma_index_of_more(gain, loss, r, base, part);
        }
    }
}

/// The RSI is 100 where the smoothed fall is zero, and else the smoothed rise
/// in percent of both together, to 26 digits.
pub proof fn rsi_is_the_share_of_the_rise(c: Seq<int>, period: int)
    requires
        0 < period < c.len(),
    ensures
        rsi_of(c, period) matches Ok(x) ==> {
            let gain = smoothed(c, period, c.len() - 1, true);
            let loss = smoothed(c, period, c.len() - 1, false);
            &&& gain is Some && gain->0 >= 0
            &&& loss is Some && loss->0 >= 0
            &&& loss->0 == 0 ==> x == 100 * one()
            &&& loss->0 > 0 ==> -(2200 * (gain->0 + loss->0)) <= x * (gain->0 + loss->0) - (100
                * one()) * gain->0 <= 2200 * (gain->0 + loss->0)
        },
{
    let n = c.len() - 1;
    lemma_smoothed_sign(c, period, n, true);
    lemma_smoothed_sign(c, period, n, false);
    if let (Some(g), Some(l)) = (smoothed(c, period, n, true), smoothed(c, period, n, false)) {
        the_index_is_the_share_of_the_rise(g, l);
    }
}

// ── Average true range ────────────────────────────────────────────

/// The true range of a candle is the greatest of the range from its low up to
/// its high and the ways from the close before to its high and to its low.
pub proof fn the_true_range_is_the_greatest(b: Seq<Bar>, i: int)
    requires
        0 < i < b.len(),
    ensures
        true_range(b, i) matches Some(r) ==> {
            let range = difference(b[i].high, b[i].low);
            let up = difference(b[i].high, b[i - 1].close);
            let down = difference(b[i].low, b[i - 1].close);
            &&& range is Some && up is Some && down is Some
            &&& r >= range->0
            &&& r >= up->0 && r >= -up->0
            &&& r >= down->0 && r >= -down->0
            &&& r == range->0 || r == up->0 || r == -up->0 || r == down->0 || r == -down->0
        },
        true_range(b, i) is None ==> difference(b[i].high, b[i].low) is None || difference(
            b[i].high,
            b[i - 1].close,
        ) is None || difference(b[i].low, b[i - 1].close) is None,
{
}

/// The true ranges of all candles after the first.
pub open spec fn true_ranges(b: Seq<Bar>) -> Seq<int> {
    Seq::new((b.len() - 1) as nat, |i: int| true_range(b, i + 1)->0)
}

proof fn lemma_window(b: Seq<Bar>, from: int, lo: int, hi: int)
    requires
        0 <= from < lo,
        hi <= b.len(),
    ensures
        total_range(b.subrange(from, b.len() as int), lo - from, hi - from) == total_range(
            b,
            lo,
            hi,
        ),
    decreases hi - lo,
{
    if hi > lo {
        lemma_window(b, from, lo, hi - 1);
        let w = b.subrange(from, b.len() as int);
        assert(w[hi - 1 - from] == b[hi - 1]);
        assert(w[hi - 2 - from] == b[hi - 2]);
    }
}

/// The average true range looks at the last candles alone: as many as the
/// period, and the close before them.
pub proof fn the_atr_looks_at_the_last_candles(b: Seq<Bar>, period: int)
    requires
        0 < period < b.len(),
    ensures
        atr_of(b, period) == atr_of(b.subrange(b.len() - period - 1, b.len() as int), period),
{
    let from = b.len() - period - 1;
    lemma_window(b, from, from + 1, b.len() as int);
}

proof fn lemma_exact_ranges(b: Seq<Bar>, n: int)
    requires
        0 <= n < b.len(),
        forall|i: int| 0 < i < b.len() ==> #[trigger] true_range(b, i) is Some,
        adds_exactly(0, true_ranges(b)),
    ensures
        total_range(b, 1, n + 1) == Some(sum_of(true_ranges(b).take(n))),
    decreases n,
{
    if n > 0 {
        lemma_exact_ranges(b, n - 1);
        sum_stays_exact(0, true_ranges(b), n - 1);
        assert(true_range(b, n) is Some);
    }
}

/// Over just the period, the average true range is the sum of all true ranges
/// by their number.
pub proof fn the_atr_is_a_mean(b: Seq<Bar>)
    requires
        b.len() > 1,
        forall|i: int| 0 < i < b.len() ==> #[trigger] true_range(b, i) is Some,
        adds_exactly(0, true_ranges(b)),
    ensures
        atr_of(b, b.len() - 1) == (match quotient(sum_of(true_ranges(b)), (b.len() - 1) * one()) {
            Some(x) => Ok::<int, IndicatorError>(x),
            None => Err(IndicatorError::OutOfRange),
        }),
{
    lemma_exact_ranges(b, b.len() - 1);
    assert(true_ranges(b).take(b.len() - 1) =~= true_ranges(b));
}

// ── Volume-weighted average price ─────────────────────────────────

proof fn lemma_flow_prefix(b: Seq<Bar>, x: Bar, n: int)
    requires
        n <= b.len(),
    ensures
        total_volume(b.push(x), n) == total_volume(b, n),
        total_value(b.push(x), n) == total_value(b, n),
    decreases n,
{
    if n > 0 {
        lemma_flow_prefix(b, x, n - 1);
        assert(b.push(x)[n - 1] == b[n - 1]);
    }
}

/// One more candle adds its volume to the volume, and a third of its high, its
/// low and its close together times its volume to the value.  The average price
/// is the value by the volume.
pub proof fn a_candle_adds_its_flow(b: Seq<Bar>, x: Bar)
    ensures
        ({
            let n = b.len() as int;
            let third = o_quotient(o_sum(sum(x.high, x.low), Some(x.close)), Some(3 * one()));
            &&& total_volume(Seq::empty(), 0) == Some(0int)
            &&& total_value(Seq::empty(), 0) == Some(0int)
            &&& total_volume(b.push(x), n + 1) == o_sum(total_volume(b, n), Some(x.volume))
            &&& total_value(b.push(x), n + 1) == o_sum(
                total_value(b, n),
                o_product(third, Some(x.volume)),
            )
            &&& vwap_of(b) == (match (total_value(b, n), total_volume(b, n)) {
                (Some(value), Some(volume)) => if volume == 0 {
                    Err(IndicatorError::DivisionByZero("vwap"))
                } else {
                    match quotient(value, volume) {
                        Some(p) => Ok(p),
                        None => Err(IndicatorError::OutOfRange),
                    }
                },
                (None, Some(volume)) => if volume == 0 {
                    Err(IndicatorError::DivisionByZero("vwap"))
                } else {
                    Err(IndicatorError::OutOfRange)
                },
                _ => Err(IndicatorError::OutOfRange),
            })
        }),
{
    lemma_pow10_28();
    lemma_flow_prefix(b, x, b.len() as int);
    assert(b.push(x)[b.len() as int] == x);
    assert(dec(3, 0) == 3 * one());
}

/// The volume of each candle.
pub open spec fn volumes(b: Seq<Bar>) -> Seq<int> {
    b.map_values(|x: Bar| x.volume)
}

/// The value of each candle: a third of its high, low and close together,
/// times its volume.
pub open spec fn flows(b: Seq<Bar>) -> Seq<int> {
    b.map_values(
        |x: Bar|
            product(quotient(sum(sum(x.high, x.low)->0, x.close)->0, 3 * one())->0, x.volume)->0,
    )
}

proof fn lemma_exact_flow(b: Seq<Bar>, n: int)
    requires
        0 <= n <= b.len(),
        adds_exactly(0, volumes(b)),
        adds_exactly(0, flows(b)),
        forall|i: int|
            0 <= i < b.len() ==> o_product(typical(#[trigger] b[i]), Some(b[i].volume)) is Some,
    ensures
        total_volume(b, n) == Some(sum_of(volumes(b).take(n))),
        total_value(b, n) == Some(sum_of(flows(b).take(n))),
    decreases n,
{
    if n > 0 {
        lemma_pow10_28();
        lemma_exact_flow(b, n - 1);
        sum_stays_exact(0, volumes(b), n - 1);
        sum_stays_exact(0, flows(b), n - 1);
        assert(o_product(typical(b[n - 1]), Some(b[n - 1].volume)) is Some);
        assert(dec(3, 0) == 3 * one());
    }
}

/// Where the sums are exact, the average price is the sum of all values by the
/// sum of all volumes.
pub proof fn the_vwap_is_value_by_volume(b: Seq<Bar>)
    requires
        adds_exactly(0, volumes(b)),
        adds_exactly(0, flows(b)),
        forall|i: int|
            0 <= i < b.len() ==> o_product(typical(#[trigger] b[i]), Some(b[i].volume)) is Some,
        sum_of(volumes(b)) != 0,
    ensures
        vwap_of(b) == (match quotient(sum_of(flows(b)), sum_of(volumes(b))) {
            Some(x) => Ok::<int, IndicatorError>(x),
            None => Err(IndicatorError::OutOfRange),
        }),
{
    let n = b.len() as int;
    lemma_exact_flow(b, n);
    assert(volumes(b).take(n) =~= volumes(b));
    assert(flows(b).take(n) =~= flows(b));
}

// ── Stochastic RSI ────────────────────────────────────────────────

/// The row of RSIs holds at each place the RSI of the values up to there.
pub proof fn the_row_holds_each_rsi(c: Seq<int>, period: int, n: int, i: int)
    requires
        0 <= period <= n <= c.len(),
        rsi_series(c, period, n) is Ok,
        0 <= i < n - period,
    ensures
        rsi_series(c, period, n)->Ok_0.len() == n - period,
        rsi_of(c.take(period + 1 + i), period) == Ok::<int, IndicatorError>(
            rsi_series(c, period, n)->Ok_0[i],
        ),
    decreases n,
{
    lemma_series_length(c, period, n);
    lemma_series_length(c, period, n - 1);
    if i < n - 1 - period {
        the_row_holds_each_rsi(c, period, n - 1, i);
    } else {
        assert(c.take(period + 1 + i) =~= c.subrange(0, n));
    }
}

/// The last RSI lies, in percent, between the least and the greatest of the
/// window as it lies between them in truth; at 50 where these are equal.
pub proof fn the_stochastic_places_the_last(s: Seq<int>, width: int, n: int, i: int, j: int)
    requires
        0 < width <= n <= s.len(),
        n - width <= i < n,
        n - width <= j < n,
        forall|k: int| n - width <= k < n ==> s[i] <= #[trigger] s[k] <= s[j],
    ensures
        s[i] == s[j] ==> stochastic(s, width, n) == Some(50 * one()),
        s[i] < s[j] ==> stochastic(s, width, n) == o_product(
            o_quotient(difference(s[n - 1], s[i]), difference(s[j], s[i])),
            Some(100 * one()),
        ),
{
    lemma_pow10_28();
    lemma_extremes(s, n - width, n);
    lemma_extreme_member(s, n - width, n);
    assert(smallest(s, n - width, n) == s[i]);
    assert(largest(s, n - width, n) == s[j]);
    if s[i] < s[j] {
        a_difference_shows(s[j], s[i]);
    } else {
        assert(representable(0)) by {
            assert(dec(0, 0) == 0);
        }
        nearest_is_exact(0, 1);
    }
    assert(dec(50, 0) == 50 * one());
    assert(dec(100, 0) == 100 * one());
}

proof fn lemma_stochastic_is_decimal(s: Seq<int>, width: int, n: int)
    ensures
        stochastic(s, width, n) matches Some(k) ==> sum(0, k) == Some(k),
{
    if let Some(k) = stochastic(s, width, n) {
        let low = smallest(s, n - width, n);
        let range = difference(largest(s, n - width, n), low);
        assert(representable(k)) by {
            if range == Some(0int) {
                assert(k == dec(50, 0));
            } else {
                let q = o_quotient(difference(s[n - 1], low), range)->0;
                nearest_is_representable(q * dec(100, 0), one());
            }
        }
        neutral_elements(k);
    }
}

proof fn lemma_series_agree(c: Seq<int>, period: int, m: int, n: int)
    requires
        0 <= period <= n <= m <= c.len(),
    ensures
        rsi_series(c.take(m), period, n) == rsi_series(c, period, n),
    decreases n,
{
    if n > period {
        lemma_series_agree(c, period, m, n - 1);
        assert(c.take(m).subrange(0, n) =~= c.subrange(0, n));
    }
}

proof fn lemma_series_prefix(c: Seq<int>, period: int, m: int, n: int)
    requires
        0 <= period <= m <= n <= c.len(),
        rsi_series(c, period, n) is Ok,
    ensures
        rsi_series(c, period, m) is Ok,
        rsi_series(c, period, m)->Ok_0 == rsi_series(c, period, n)->Ok_0.take(m - period),
    decreases n - m,
{
    lemma_series_length(c, period, n);
    lemma_series_length(c, period, m);
    if m < n {
        lemma_series_prefix(c, period, m, n - 1);
        lemma_series_length(c, period, n - 1);
    }
    assert(rsi_series(c, period, m)->Ok_0 =~= rsi_series(c, period, n)->Ok_0.take(m - period));
}

proof fn lemma_extremes_of_prefix(s: Seq<int>, m: int, lo: int, hi: int)
    requires
        0 <= lo < hi <= m <= s.len(),
    ensures
        smallest(s.take(m), lo, hi) == smallest(s, lo, hi),
        largest(s.take(m), lo, hi) == largest(s, lo, hi),
    decreases hi - lo,
{
    if hi - lo > 1 {
        lemma_extremes_of_prefix(s, m, lo, hi - 1);
    }
}

/// The %K is the place of the last RSI among the last of its row.  The %D is
/// the mean of the %K and of those that the values without the last, and
/// without the last two, have; where only two windows fit, it is the mean of
/// two.
pub proof fn the_d_is_the_mean_of_the_k(c: Seq<int>, rsi_period: int, stoch_period: int)
    requires
        0 <= rsi_period,
        0 < stoch_period,
    ensures
        stoch_rsi_of(c, rsi_period, stoch_period) matches Ok(st) ==> {
            let s = rsi_series(c, rsi_period, c.len() as int)->Ok_0;
            let n = s.len() as int;
            let at = |m: int| stochastic(s, stoch_period, m);
            &&& n == c.len() - rsi_period && n > stoch_period
            &&& Some(st.k) == at(n)
            &&& n >= stoch_period + 2 ==> Some(st.d) == o_quotient(
                o_sum(o_sum(at(n - 2), at(n - 1)), at(n)),
                Some(3 * one()),
            )
            &&& n == stoch_period + 1 ==> Some(st.d) == o_quotient(
                o_sum(at(n - 1), at(n)),
                Some(2 * one()),
            )
            &&& forall|m: int|
                stoch_period < m < n ==> (stoch_rsi_of(
                    c.take(m + rsi_period),
                    rsi_period,
                    stoch_period,
                ) matches Ok(e) ==> Some(e.k) == #[trigger] at(m))
        },
{
    if let Ok(st) = stoch_rsi_of(c, rsi_period, stoch_period) {
        let s = rsi_series(c, rsi_period, c.len() as int)->Ok_0;
        lemma_series_length(c, rsi_period, c.len() as int);
        let n = s.len() as int;
        let w = stoch_period;
        if n >= w + 2 {
            lemma_stochastic_is_decimal(s, w, n - 2);
            let lo = n - 3;
            assert(total_stochastic(s, w, lo, lo) == Some(0int));
            assert(total_stochastic(s, w, lo, lo + 1) == o_sum(Some(0int), stochastic(s, w, n - 2)));
            assert(total_stochastic(s, w, lo, lo + 2) == o_sum(
                total_stochastic(s, w, lo, lo + 1),
                stochastic(s, w, n - 1),
            ));
        } else {
            lemma_stochastic_is_decimal(s, w, n - 1);
            let lo = n - 2;
            assert(total_stochastic(s, w, lo, lo) == Some(0int));
            assert(total_stochastic(s, w, lo, lo + 1) == o_sum(Some(0int), stochastic(s, w, n - 1)));
        }
        assert forall|m: int| stoch_period < m < n implies (stoch_rsi_of(
            c.take(m + rsi_period),
            rsi_period,
            stoch_period,
        ) matches Ok(e) ==> Some(e.k) == #[trigger] stochastic(s, stoch_period, m)) by {
            let to = m + rsi_period;
            lemma_series_agree(c, rsi_period, to, to);
            lemma_series_prefix(c, rsi_period, to, c.len() as int);
            lemma_extremes_of_prefix(s, m, m - w, m);
        }
    }
}

// ── Divergence ────────────────────────────────────────────────────

/// There is a bullish divergence where the last close is below the one a period
/// before while the RSI over the last period is above the one over the period
/// before and below 40; a bearish one where the close is above, and the RSI
/// below and above 60; and else none.
pub proof fn divergence_sets_price_against_rsi(b: Seq<Bar>, period: int)
    requires
        period >= 0,
    ensures
        ({
            let n = b.len() as int;
            let c = b.map_values(|x: Bar| x.close);
            let now = rsi_of(c.subrange(n - period - 1, n), period);
            let prev = rsi_of(c.subrange(n - 2 * period - 1, n - period), period);
            let there = period > 0 && n >= 2 * period + 2 && now is Ok && prev is Ok;
            &&& divergence_of(b, period) == Some(Direction::Long) <==> there && c[n - 1] < c[n - 1
                - period] && now->Ok_0 > prev->Ok_0 && now->Ok_0 < 40 * one()
            &&& divergence_of(b, period) == Some(Direction::Short) <==> there && c[n - 1] > c[n - 1
                - period] && now->Ok_0 < prev->Ok_0 && now->Ok_0 > 60 * one()
        }),
{
    lemma_pow10_28();
    assert(dec(40, 0) == 40 * one());
    assert(dec(60, 0) == 60 * one());
    assert(closes_of(b) =~= b.map_values(|x: Bar| x.close));
}

} // verus!
