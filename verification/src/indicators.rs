//! Technical analysis.  Every indicator is a stateless free function that
//! takes a row of numbers or candles and returns a `Result`.

use vstd::prelude::*;
use vstd::slice::slice_subrange;
use vstd::string::*;

use crate::decimal::{
    a_difference_shows, dec, difference, lemma_pow10_28, max_of, min_of, nearest_is_exact,
    nearest_is_monotone, nearest_is_odd, nearest_is_there, nearest_keeps_bounds, neutral_elements,
    o_difference, o_magnitude, o_max, o_product, o_quotient, o_sum, one, product, quotient,
    representable, sign_is_kept, sum, try_abs, try_difference, try_larger, try_product,
    try_quotient, try_sum, val, Decimal,
};
use crate::text::{count_text, digits};
use crate::types::{bars, Bar, Candle, Direction};

verus! {

// ── Error ─────────────────────────────────────────────────────────

#[derive(Debug, Clone, Copy, PartialEq, Eq)]
pub enum IndicatorError {
    NotEnoughData { need: usize, got: usize },
    DivisionByZero(&'static str),
    /// A step left the decimal range.
    OutOfRange,
}

impl IndicatorError {
    pub open spec fn text(self) -> Seq<char> {
        match self {
            IndicatorError::NotEnoughData { need, got } => "Not enough data: need "@ + digits(
                need as int,
            ) + ", got "@ + digits(got as int),
            IndicatorError::DivisionByZero(what) => "Division by zero in "@ + what@,
            IndicatorError::OutOfRange => "Number out of range"@,
        }
    }

    pub fn to_string(&self) -> (r: String)
        ensures
            r@ == self.text(),
    {
        match self {
            IndicatorError::NotEnoughData { need, got } => {
                let mut r = "Not enough data: need ".to_owned();
                r.append(count_text(*need).as_str());
                r.append(", got ");
                r.append(count_text(*got).as_str());
                r
            },
            IndicatorError::DivisionByZero(what) => {
                let mut r = "Division by zero in ".to_owned();
                r.append(what);
                r
            },
            IndicatorError::OutOfRange => "Number out of range".to_owned(),
        }
    }
}

/// What an indicator stands for.
pub open spec fn outcome(r: Result<Decimal, IndicatorError>) -> Result<int, IndicatorError> {
    match r {
        Ok(d) => Ok(d@),
        Err(e) => Err(e),
    }
}

/// The last step of an indicator: its number, if it is in range.
pub open spec fn in_range(x: Option<int>) -> Result<int, IndicatorError> {
    match x {
        Some(v) => Ok(v),
        None => Err(IndicatorError::OutOfRange),
    }
}

fn within_range(x: Option<Decimal>) -> (r: Result<Decimal, IndicatorError>)
    ensures
        outcome(r) == in_range(val(x)),
{
    match x {
        Some(v) => Ok(v),
        None => Err(IndicatorError::OutOfRange),
    }
}

/// The error that `got` values are where `need` are wanted.
pub open spec fn too_few(need: int, got: nat) -> IndicatorError {
    IndicatorError::NotEnoughData { need: need as usize, got: got as usize }
}

/// What a row of numbers stands for.
pub open spec fn values(s: Seq<Decimal>) -> Seq<int> {
    s.map_values(|d: Decimal| d@)
}

/// A count, as a decimal.
pub open spec fn count(n: int) -> int {
    n * one()
}

// ── RSI (Wilder's smoothed method) ────────────────────────────────

/// The part of the change from value `i` to the next that goes up (or, where
/// `up` is false, the part that goes down).
pub open spec fn moved(c: Seq<int>, i: int, up: bool) -> Option<int> {
    match difference(c[i + 1], c[i]) {
        Some(x) => Some(
            max_of(
                if up {
                    x
                } else {
                    -x
                },
                0,
            ),
        ),
        None => None,
    }
}

/// The sum of the first `n` moves.
pub open spec fn total_moved(c: Seq<int>, n: int, up: bool) -> Option<int>
    decreases n,
{
    if n <= 0 {
        Some(0)
    } else {
        o_sum(total_moved(c, n - 1, up), moved(c, n - 1, up))
    }
}

/// Wilder's average of the first `n` moves: the mean of the first `period`,
/// into which each later move goes with the weight `1 / period`.
pub open spec fn smoothed(c: Seq<int>, period: int, n: int, up: bool) -> Option<int>
    decreases n - period,
{
    if n <= period {
        o_quotient(total_moved(c, period, up), Some(count(period)))
    } else {
        o_quotient(
            o_sum(
                o_product(smoothed(c, period, n - 1, up), Some(count(period - 1))),
                moved(c, n - 1, up),
            ),
            Some(count(period)),
        )
    }
}

/// The strength index of an average gain and an average loss,
/// `100 - 100 / (1 + gain / loss)`.  Where the gain is the larger of the two it
/// is taken in the form `100 / (1 + loss / gain)`, whose steps stay small.
pub open spec fn strength_index(gain: int, loss: int) -> Option<int> {
    if loss == 0 {
        Some(dec(100, 0))
    } else if gain <= loss {
        o_difference(
            Some(dec(100, 0)),
            o_quotient(Some(dec(100, 0)), o_sum(Some(one()), quotient(gain, loss))),
        )
    } else {
        o_quotient(Some(dec(100, 0)), o_sum(Some(one()), quotient(loss, gain)))
    }
}

pub open spec fn rsi_of(c: Seq<int>, period: int) -> Result<int, IndicatorError> {
    if c.len() < period + 1 {
        Err(too_few(period + 1, c.len()))
    } else if period == 0 {
        Err(IndicatorError::DivisionByZero("rsi"))
    } else {
        match (smoothed(c, period, c.len() - 1, true), smoothed(c, period, c.len() - 1, false)) {
            (Some(gain), Some(loss)) => in_range(strength_index(gain, loss)),
            _ => Err(IndicatorError::OutOfRange),
        }
    }
}

fn one_move(closes: &[Decimal], i: usize, up: bool) -> (r: Option<Decimal>)
    requires
        i + 1 < closes@.len(),
    ensures
        val(r) == moved(values(closes@), i as int, up),
{
    assert(values(closes@)[i as int] == closes@[i as int]@);
    assert(values(closes@)[i + 1] == closes@[i + 1]@);
    let n = closes.len();
    assert(i + 1 < n);
    match closes[i + 1].checked_sub(closes[i]) {
        Some(x) => Some(
            if up {
                x.larger(Decimal::zero())
            } else {
                x.negated().larger(Decimal::zero())
            },
        ),
        None => None,
    }
}

fn smooth(closes: &[Decimal], period: usize, up: bool) -> (r: Option<Decimal>)
    requires
        0 < period < closes@.len(),
    ensures
        val(r) == smoothed(values(closes@), period as int, closes@.len() - 1, up),
{
    let ghost c = values(closes@);
    let mut total = Some(Decimal::zero());
    let mut i: usize = 0;
    while i < period
        invariant
            i <= period < closes@.len(),
            c == values(closes@),
            val(total) == total_moved(c, i as int, up),
        decreases period - i,
    {
        total = try_sum(total, one_move(closes, i, up));
        i = i + 1;
    }
    let all = Some(Decimal::from_count(period));
    let rest = Some(Decimal::from_count(period - 1));
    let mut avg = try_quotient(total, all);
    let last = closes.len() - 1;
    while i < last
        invariant
            0 < period <= i <= last == closes@.len() - 1,
            c == values(closes@),
            val(all) == Some(count(period as int)),
            val(rest) == Some(count(period - 1)),
            val(avg) == smoothed(c, period as int, i as int, up),
        decreases last - i,
    {
        avg = try_quotient(try_sum(try_product(avg, rest), one_move(closes, i, up)), all);
        i = i + 1;
    }
    avg
}

fn index_of(gain: Decimal, loss: Decimal) -> (r: Option<Decimal>)
    ensures
        val(r) == strength_index(gain@, loss@),
{
    let hundred = Some(Decimal::new(100, 0));
    let unit = Some(Decimal::one());
    if loss.is_zero() {
        hundred
    } else if gain.at_most(loss) {
        try_difference(hundred, try_quotient(hundred, try_sum(unit, gain.checked_div(loss))))
    } else {
        try_quotient(hundred, try_sum(unit, loss.checked_div(gain)))
    }
}

/// Returns the current RSI value (0–100), by Wilder's exponential smoothing.
///
/// # Errors
/// `NotEnoughData` when `closes.len() < period + 1`, otherwise
/// `DivisionByZero` when `period` is zero.
pub fn rsi(closes: &[Decimal], period: usize) -> (r: Result<Decimal, IndicatorError>)
    requires
        period < usize::MAX,
    ensures
        outcome(r) == rsi_of(values(closes@), period as int),
{
    if closes.len() < period + 1 {
        return Err(IndicatorError::NotEnoughData { need: period + 1, got: closes.len() });
    }
    if period == 0 {
        return Err(IndicatorError::DivisionByZero("rsi"));
    }
    match (smooth(closes, period, true), smooth(closes, period, false)) {
        (Some(gain), Some(loss)) => within_range(index_of(gain, loss)),
        _ => Err(IndicatorError::OutOfRange),
    }
}

// ── EMA ───────────────────────────────────────────────────────────

/// The sum of the first `n` values.
pub open spec fn total(c: Seq<int>, n: int) -> Option<int>
    decreases n,
{
    if n <= 0 {
        Some(0)
    } else {
        o_sum(total(c, n - 1), Some(c[n - 1]))
    }
}

/// The weight of the newest value, `2 / (period + 1)`.
pub open spec fn ema_weight(period: int) -> Option<int> {
    o_quotient(Some(dec(2, 0)), sum(count(period), one()))
}

/// The average after the first `period` values and `i` more: the mean of the
/// first `period`, into which each later value goes with its weight.
pub open spec fn ema_at(c: Seq<int>, period: int, i: int) -> Option<int>
    decreases i,
{
    if i <= 0 {
        o_quotient(total(c, period), Some(count(period)))
    } else {
        let k = ema_weight(period);
        o_sum(
            o_product(Some(c[period + i - 1]), k),
            o_product(ema_at(c, period, i - 1), o_difference(Some(one()), k)),
        )
    }
}

pub open spec fn ema_of(c: Seq<int>, period: int) -> Result<Seq<int>, IndicatorError> {
    if c.len() < period {
        Err(too_few(period, c.len()))
    } else if period == 0 {
        Err(IndicatorError::DivisionByZero("ema"))
    } else if ema_at(c, period, c.len() - period) is None {
        Err(IndicatorError::OutOfRange)
    } else {
        Ok(Seq::new((c.len() - period + 1) as nat, |i: int| ema_at(c, period, i)->0))
    }
}

/// What a series stands for.
pub open spec fn series(r: Result<Vec<Decimal>, IndicatorError>) -> Result<
    Seq<int>,
    IndicatorError,
> {
    match r {
        Ok(v) => Ok(values(v@)),
        Err(e) => Err(e),
    }
}

proof fn lemma_ema_fail(c: Seq<int>, period: int, i: int, j: int)
    requires
        0 <= i <= j,
        ema_at(c, period, i) is None,
    ensures
        ema_at(c, period, j) is None,
    decreases j - i,
{
    if i < j {
        lemma_ema_fail(c, period, i, j - 1);
    }
}

/// Returns the full EMA series starting from the first complete bar.
///
/// # Errors
/// `NotEnoughData` when `data.len() < period`, otherwise `DivisionByZero`
/// when `period` is zero.
pub fn ema(data: &[Decimal], period: usize) -> (r: Result<Vec<Decimal>, IndicatorError>)
    ensures
        series(r) == ema_of(values(data@), period as int),
        r matches Ok(v) ==> v@.len() == data@.len() - period + 1,
{
    let ghost c = values(data@);
    let n = data.len();
    if n < period {
        return Err(IndicatorError::NotEnoughData { need: period, got: n });
    }
    if period == 0 {
        return Err(IndicatorError::DivisionByZero("ema"));
    }
    let k = try_quotient(
        Some(Decimal::new(2, 0)),
        Decimal::from_count(period).checked_add(Decimal::one()),
    );
    let rest = try_difference(Some(Decimal::one()), k);
    // Seed with the mean of the first `period` bars
    let mut seed = Some(Decimal::zero());
    let mut i: usize = 0;
    while i < period
        invariant
            i <= period <= data@.len(),
            c == values(data@),
            val(seed) == total(c, i as int),
        decreases period - i,
    {
        assert(c[i as int] == data@[i as int]@);
        seed = try_sum(seed, Some(data[i]));
        i = i + 1;
    }
    let mut prev = match try_quotient(seed, Some(Decimal::from_count(period))) {
        Some(x) => x,
        None => {
            proof {
                lemma_ema_fail(c, period as int, 0, n - period);
            }
            return Err(IndicatorError::OutOfRange);
        },
    };
    let mut out: Vec<Decimal> = Vec::new();
    out.push(prev);
    while i < n
        invariant
            0 < period <= i <= n == data@.len(),
            c == values(data@),
            val(k) == ema_weight(period as int),
            val(rest) == o_difference(Some(one()), ema_weight(period as int)),
            out@.len() == i - period + 1,
            Some(prev@) == ema_at(c, period as int, i - period),
            forall|j: int|
                0 <= j < out@.len() ==> Some((#[trigger] out@[j])@) == ema_at(c, period as int, j),
        decreases n - i,
    {
        assert(c[i as int] == data@[i as int]@);
        match try_sum(try_product(Some(data[i]), k), try_product(Some(prev), rest)) {
            Some(x) => {
                prev = x;
                out.push(x);
            },
            None => {
                proof {
                    lemma_ema_fail(c, period as int, i - period + 1, n - period);
                }
                return Err(IndicatorError::OutOfRange);
            },
        }
        i = i + 1;
    }
    assert(values(out@) =~= ema_of(c, period as int)->Ok_0);
    Ok(out)
}

/// The last value of a series.
pub open spec fn last_of(r: Result<Seq<int>, IndicatorError>) -> Result<int, IndicatorError> {
    match r {
        Ok(s) => Ok(s.last()),
        Err(e) => Err(e),
    }
}

/// Convenience: return only the last EMA value.
pub fn ema_last(data: &[Decimal], period: usize) -> (r: Result<Decimal, IndicatorError>)
    ensures
        outcome(r) == last_of(ema_of(values(data@), period as int)),
{
    match ema(data, period) {
        Ok(v) => {
            assert(values(v@).last() == v@[v@.len() - 1]@);
            Ok(v[v.len() - 1])
        },
        Err(e) => Err(e),
    }
}

// ── MACD (12, 26, 9) ──────────────────────────────────────────────

#[derive(Debug, Clone, Copy)]
pub struct MacdResult {
    /// Fast EMA − slow EMA.
    pub macd: Decimal,
    /// 9-period EMA of the macd line.
    pub signal: Decimal,
    /// macd − signal.
    pub histogram: Decimal,
}

/// What a MACD result stands for.
pub struct Macd {
    pub macd: int,
    pub signal: int,
    pub histogram: int,
}

impl View for MacdResult {
    type V = Macd;

    open spec fn view(&self) -> Macd {
        Macd { macd: self.macd@, signal: self.signal@, histogram: self.histogram@ }
    }
}

/// The fast series, whose older values are left out, less the slow one.
pub open spec fn line_at(fast: Seq<int>, slow: Seq<int>, i: int) -> Option<int> {
    difference(fast[fast.len() - slow.len() + i], slow[i])
}

pub open spec fn macd_line(fast: Seq<int>, slow: Seq<int>) -> Result<Seq<int>, IndicatorError> {
    if forall|i: int| 0 <= i < slow.len() ==> #[trigger] line_at(fast, slow, i) is Some {
        Ok(Seq::new(slow.len(), |i: int| line_at(fast, slow, i)->0))
    } else {
        Err(IndicatorError::OutOfRange)
    }
}

/// The MACD values of a line and of its signal series.
pub open spec fn macd_end(line: Seq<int>, signal: Seq<int>) -> Result<Macd, IndicatorError> {
    match difference(line.last(), signal.last()) {
        Some(h) => Ok(Macd { macd: line.last(), signal: signal.last(), histogram: h }),
        None => Err(IndicatorError::OutOfRange),
    }
}

pub open spec fn macd_of(c: Seq<int>) -> Result<Macd, IndicatorError> {
    match (ema_of(c, 12), ema_of(c, 26)) {
        (Ok(fast), Ok(slow)) => match macd_line(fast, slow) {
            Ok(line) => match ema_of(line, 9) {
                Ok(signal) => macd_end(line, signal),
                Err(e) => Err(e),
            },
            Err(e) => Err(e),
        },
        (Err(e), _) => Err(e),
        (_, Err(e)) => Err(e),
    }
}

/// Returns the current MACD values.
///
/// # Errors
/// `NotEnoughData` when `closes.len() < 26 + 9 − 1`.
pub fn macd(closes: &[Decimal]) -> (r: Result<MacdResult, IndicatorError>)
    ensures
        match r {
            Ok(m) => macd_of(values(closes@)) == Ok::<Macd, IndicatorError>(m@),
            Err(e) => macd_of(values(closes@)) == Err::<Macd, IndicatorError>(e),
        },
        closes@.len() < 26 + 9 - 1 ==> r is Err,
{
    let ghost c = values(closes@);
    let fast = match ema(closes, 12) {
        Ok(v) => v,
        Err(e) => {
            return Err(e);
        },
    };
    let slow = match ema(closes, 26) {
        Ok(v) => v,
        Err(e) => {
            return Err(e);
        },
    };
    let len = fast.len();
    let trim = len - slow.len();
    let mut line: Vec<Decimal> = Vec::new();
    let mut i: usize = 0;
    while i < slow.len()
        invariant
            i <= slow@.len(),
            len == fast@.len() == slow@.len() + trim,
            c == values(closes@),
            ema_of(c, 12) == Ok::<Seq<int>, IndicatorError>(values(fast@)),
            ema_of(c, 26) == Ok::<Seq<int>, IndicatorError>(values(slow@)),
            line@.len() == i,
            forall|j: int|
                0 <= j < i ==> Some((#[trigger] line@[j])@) == line_at(
                    values(fast@),
                    values(slow@),
                    j,
                ),
        decreases slow@.len() - i,
    {
        assert(values(fast@)[trim + i] == fast@[trim + i]@);
        assert(values(slow@)[i as int] == slow@[i as int]@);
        match fast[trim + i].checked_sub(slow[i]) {
            Some(x) => {
                line.push(x);
            },
            None => {
                assert(line_at(values(fast@), values(slow@), i as int) is None);
                return Err(IndicatorError::OutOfRange);
            },
        }
        i = i + 1;
    }
    proof {
        assert forall|j: int| 0 <= j < values(slow@).len() implies #[trigger] line_at(
            values(fast@),
            values(slow@),
            j,
        ) is Some by {
            assert(Some(line@[j]@) == line_at(values(fast@), values(slow@), j));
        }
        assert(values(line@) =~= macd_line(values(fast@), values(slow@))->Ok_0);
    }
    let signal = match ema(line.as_slice(), 9) {
        Ok(v) => v,
        Err(e) => {
            return Err(e);
        },
    };
    let macd = line[line.len() - 1];
    let sig = signal[signal.len() - 1];
    assert(values(line@).last() == macd@);
    assert(values(signal@).last() == sig@);
    match macd.checked_sub(sig) {
        Some(histogram) => Ok(MacdResult { macd, signal: sig, histogram }),
        None => Err(IndicatorError::OutOfRange),
    }
}

// ── ATR ───────────────────────────────────────────────────────────

/// The true range of candle `i`: the widest of its own range and of its
/// distances from the close before it.
pub open spec fn true_range(b: Seq<Bar>, i: int) -> Option<int> {
    let high = b[i].high;
    let low = b[i].low;
    let prev = b[i - 1].close;
    o_max(
        o_max(difference(high, low), o_magnitude(difference(high, prev))),
        o_magnitude(difference(low, prev)),
    )
}

/// The sum of the true ranges of the candles `lo..hi`.
pub open spec fn total_range(b: Seq<Bar>, lo: int, hi: int) -> Option<int>
    decreases hi - lo,
{
    if hi <= lo {
        Some(0)
    } else {
        o_sum(total_range(b, lo, hi - 1), true_range(b, hi - 1))
    }
}

pub open spec fn atr_of(b: Seq<Bar>, period: int) -> Result<int, IndicatorError> {
    if b.len() < period + 1 {
        Err(too_few(period + 1, b.len()))
    } else if period == 0 {
        Err(IndicatorError::DivisionByZero("atr"))
    } else {
        in_range(
            o_quotient(
                total_range(b, b.len() - period, b.len() as int),
                Some(count(period)),
            ),
        )
    }
}

/// Returns the current Average True Range: the mean of the last `period` true
/// ranges.
///
/// # Errors
/// `NotEnoughData` when `candles.len() < period + 1`, otherwise
/// `DivisionByZero` when `period` is zero.
pub fn atr(candles: &[Candle], period: usize) -> (r: Result<Decimal, IndicatorError>)
    requires
        period < usize::MAX,
    ensures
        outcome(r) == atr_of(bars(candles@), period as int),
{
    let ghost b = bars(candles@);
    let n = candles.len();
    if n < period + 1 {
        return Err(IndicatorError::NotEnoughData { need: period + 1, got: n });
    }
    if period == 0 {
        return Err(IndicatorError::DivisionByZero("atr"));
    }
    let mut sum = Some(Decimal::zero());
    let mut i: usize = n - period;
    while i < n
        invariant
            0 < n - period <= i <= n == candles@.len(),
            b == bars(candles@),
            val(sum) == total_range(b, n - period, i as int),
        decreases n - i,
    {
        let high = candles[i].high.0;
        let low = candles[i].low.0;
        let prev = candles[i - 1].close.0;
        assert(b[i as int] == candles@[i as int]@);
        assert(b[i - 1] == candles@[i - 1]@);
        let range = try_larger(
            try_larger(high.checked_sub(low), try_abs(high.checked_sub(prev))),
            try_abs(low.checked_sub(prev)),
        );
        sum = try_sum(sum, range);
        i = i + 1;
    }
    within_range(try_quotient(sum, Some(Decimal::from_count(period))))
}

// ── VWAP ──────────────────────────────────────────────────────────

/// The volume of the first `n` candles.
pub open spec fn total_volume(b: Seq<Bar>, n: int) -> Option<int>
    decreases n,
{
    if n <= 0 {
        Some(0)
    } else {
        o_sum(total_volume(b, n - 1), Some(b[n - 1].volume))
    }
}

/// A candle's typical price: the mean of its high, low and close.
pub open spec fn typical(c: Bar) -> Option<int> {
    o_quotient(o_sum(sum(c.high, c.low), Some(c.close)), Some(dec(3, 0)))
}

/// The typical prices of the first `n` candles, weighed by volume.
pub open spec fn total_value(b: Seq<Bar>, n: int) -> Option<int>
    decreases n,
{
    if n <= 0 {
        Some(0)
    } else {
        o_sum(total_value(b, n - 1), o_product(typical(b[n - 1]), Some(b[n - 1].volume)))
    }
}

pub open spec fn vwap_of(b: Seq<Bar>) -> Result<int, IndicatorError> {
    let volume = total_volume(b, b.len() as int);
    if volume == Some(0int) {
        Err(IndicatorError::DivisionByZero("vwap"))
    } else {
        in_range(o_quotient(total_value(b, b.len() as int), volume))
    }
}

/// Returns the Volume-Weighted Average Price over the supplied candles.
///
/// # Errors
/// `DivisionByZero` when total volume is zero.
pub fn vwap(candles: &[Candle]) -> (r: Result<Decimal, IndicatorError>)
    ensures
        outcome(r) == vwap_of(bars(candles@)),
{
    let ghost b = bars(candles@);
    let n = candles.len();
    let mut volume = Some(Decimal::zero());
    let mut value = Some(Decimal::zero());
    let mut i: usize = 0;
    while i < n
        invariant
            i <= n == candles@.len(),
            b == bars(candles@),
            val(volume) == total_volume(b, i as int),
            val(value) == total_value(b, i as int),
        decreases n - i,
    {
        let k = &candles[i];
        assert(b[i as int] == k@);
        let typ = try_quotient(
            try_sum(k.high.0.checked_add(k.low.0), Some(k.close.0)),
            Some(Decimal::new(3, 0)),
        );
        volume = try_sum(volume, Some(k.volume.0));
        value = try_sum(value, try_product(typ, Some(k.volume.0)));
        i = i + 1;
    }
    if let Some(v) = volume {
        if v.is_zero() {
            return Err(IndicatorError::DivisionByZero("vwap"));
        }
    }
    within_range(try_quotient(value, volume))
}

// ── Stochastic RSI ────────────────────────────────────────────────

#[derive(Debug, Clone, Copy)]
pub struct StochRsi {
    /// %K (0–100).
    pub k: Decimal,
    /// %D: the mean of the last three %K (of the two there are where the row
    /// is as short as it may be).
    pub d: Decimal,
}

/// What a stochastic RSI stands for.
pub struct Stoch {
    pub k: int,
    pub d: int,
}

impl View for StochRsi {
    type V = Stoch;

    open spec fn view(&self) -> Stoch {
        Stoch { k: self.k@, d: self.d@ }
    }
}

/// The RSI after each of the values `period..n`.
pub open spec fn rsi_series(c: Seq<int>, period: int, n: int) -> Result<Seq<int>, IndicatorError>
    decreases n - period,
{
    if n <= period {
        Ok(seq![])
    } else {
        match (rsi_series(c, period, n - 1), rsi_of(c.subrange(0, n), period)) {
            (Ok(s), Ok(x)) => Ok(s.push(x)),
            (Err(e), _) => Err(e),
            (_, Err(e)) => Err(e),
        }
    }
}

/// The smallest of the values `lo..hi` (there is at least one).
pub open spec fn smallest(s: Seq<int>, lo: int, hi: int) -> int
    decreases hi - lo,
{
    if hi - lo <= 1 {
        s[lo]
    } else {
        min_of(smallest(s, lo, hi - 1), s[hi - 1])
    }
}

/// The largest of the values `lo..hi` (there is at least one).
pub open spec fn largest(s: Seq<int>, lo: int, hi: int) -> int
    decreases hi - lo,
{
    if hi - lo <= 1 {
        s[lo]
    } else {
        max_of(largest(s, lo, hi - 1), s[hi - 1])
    }
}

/// Where the last of the first `n` values lies between the smallest and the
/// largest of the last `width` of them, in percent; in the middle where these
/// are the same.
pub open spec fn stochastic(s: Seq<int>, width: int, n: int) -> Option<int> {
    let low = smallest(s, n - width, n);
    let range = difference(largest(s, n - width, n), low);
    if range == Some(0int) {
        Some(dec(50, 0))
    } else {
        o_product(o_quotient(difference(s[n - 1], low), range), Some(dec(100, 0)))
    }
}

/// The sum of the %K after each of the values `lo..hi`.
pub open spec fn total_stochastic(s: Seq<int>, width: int, lo: int, hi: int) -> Option<int>
    decreases hi - lo,
{
    if hi <= lo {
        Some(0)
    } else {
        o_sum(total_stochastic(s, width, lo, hi - 1), stochastic(s, width, hi))
    }
}

/// How many %K go into %D: the last three, or as many as there are.
pub open spec fn averaged(len: int, width: int) -> int {
    min_of(3, len - width + 1)
}

/// %D: the mean of the last %K.
pub open spec fn stochastic_mean(s: Seq<int>, width: int) -> Option<int> {
    let n = s.len() as int;
    let taken = averaged(n, width);
    o_quotient(total_stochastic(s, width, n - taken, n), Some(count(taken)))
}

pub open spec fn stoch_rsi_of(c: Seq<int>, rsi_period: int, stoch_period: int) -> Result<
    Stoch,
    IndicatorError,
> {
    if c.len() < rsi_period + stoch_period + 1 {
        Err(too_few(rsi_period + stoch_period + 1, c.len()))
    } else {
        match rsi_series(c, rsi_period, c.len() as int) {
            Ok(s) => match (
                stochastic(s, stoch_period, s.len() as int),
                stochastic_mean(s, stoch_period),
            ) {
                (Some(k), Some(d)) => Ok(Stoch { k, d }),
                _ => Err(IndicatorError::OutOfRange),
            },
            Err(e) => Err(e),
        }
    }
}

proof fn lemma_series_fail(c: Seq<int>, period: int, i: int, j: int)
    requires
        period <= i <= j,
        rsi_series(c, period, i) is Err,
    ensures
        rsi_series(c, period, j) == rsi_series(c, period, i),
    decreases j - i,
{
    if i < j {
        lemma_series_fail(c, period, i, j - 1);
    }
}

/// A part of a row stands for that part of what the row stands for.
proof fn lemma_values_subrange(s: Seq<Decimal>, i: int, j: int)
    requires
        0 <= i <= j <= s.len(),
    ensures
        values(s.subrange(i, j)) == values(s).subrange(i, j),
{
    assert(values(s.subrange(i, j)) =~= values(s).subrange(i, j));
}

fn stochastic_at(s: &[Decimal], width: usize, n: usize) -> (r: Option<Decimal>)
    requires
        0 < width <= n <= s@.len(),
    ensures
        val(r) == stochastic(values(s@), width as int, n as int),
{
    let ghost v = values(s@);
    let from = n - width;
    let mut low = s[from];
    let mut high = s[from];
    let mut j: usize = from + 1;
    assert(v[from as int] == low@);
    while j < n
        invariant
            from < j <= n <= s@.len(),
            v == values(s@),
            low@ == smallest(v, from as int, j as int),
            high@ == largest(v, from as int, j as int),
        decreases n - j,
    {
        assert(v[j as int] == s@[j as int]@);
        low = low.smaller(s[j]);
        high = high.larger(s[j]);
        j = j + 1;
    }
    let range = high.checked_sub(low);
    assert(v[n - 1] == s@[n - 1]@);
    match range {
        Some(w) if w.is_zero() => Some(Decimal::new(50, 0)),
        _ => try_product(
            try_quotient(s[n - 1].checked_sub(low), range),
            Some(Decimal::new(100, 0)),
        ),
    }
}

fn mean_stochastic(s: &[Decimal], width: usize) -> (r: Option<Decimal>)
    requires
        0 < width <= s@.len(),
    ensures
        val(r) == stochastic_mean(values(s@), width as int),
{
    let n = s.len();
    let there = n - width;
    let taken: usize = if there < 2 {
        there + 1
    } else {
        3
    };
    let from = n - taken;
    let mut total = Some(Decimal::zero());
    let mut i: usize = from;
    while i < n
        invariant
            width <= from + 1,
            0 < width,
            from <= i <= n == s@.len(),
            val(total) == total_stochastic(values(s@), width as int, from as int, i as int),
        decreases n - i,
    {
        total = try_sum(total, stochastic_at(s, width, i + 1));
        i = i + 1;
    }
    try_quotient(total, Some(Decimal::from_count(taken)))
}

/// Stochastic RSI — oscillator of RSI values.
/// Typical thresholds: oversold < 20, overbought > 80.
///
/// # Errors
/// `NotEnoughData` when `closes.len() < rsi_period + stoch_period + 1`, and
/// the errors of [`rsi`].
pub fn stoch_rsi(closes: &[Decimal], rsi_period: usize, stoch_period: usize) -> (r: Result<
    StochRsi,
    IndicatorError,
>)
    requires
        stoch_period > 0,
        rsi_period + stoch_period < usize::MAX,
    ensures
        match r {
            Ok(s) => stoch_rsi_of(values(closes@), rsi_period as int, stoch_period as int) == Ok::<
                Stoch,
                IndicatorError,
            >(s@),
            Err(e) => stoch_rsi_of(values(closes@), rsi_period as int, stoch_period as int)
                == Err::<Stoch, IndicatorError>(e),
        },
{
    let ghost c = values(closes@);
    let ghost p = rsi_period as int;
    let n = closes.len();
    let min_len = rsi_period + stoch_period;
    if n < min_len + 1 {
        return Err(IndicatorError::NotEnoughData { need: min_len + 1, got: n });
    }
    let mut s: Vec<Decimal> = Vec::new();
    let mut i: usize = rsi_period;
    assert(values(s@) =~= seq![]);
    while i < n
        invariant
            p == rsi_period,
            rsi_period <= i <= n == closes@.len(),
            rsi_period + stoch_period < n,
            c == values(closes@),
            s@.len() == i - rsi_period,
            rsi_series(c, p, i as int) == Ok::<Seq<int>, IndicatorError>(values(s@)),
        decreases n - i,
    {
        proof {
            lemma_values_subrange(closes@, 0, i + 1);
        }
        match rsi(slice_subrange(closes, 0, i + 1), rsi_period) {
            Ok(x) => {
                let ghost before = s@;
                s.push(x);
                assert(values(s@) =~= values(before).push(x@));
            },
            Err(e) => {
                proof {
                    lemma_series_fail(c, p, i + 1, n as int);
                }
                return Err(e);
            },
        }
        i = i + 1;
    }
    match (
        stochastic_at(s.as_slice(), stoch_period, s.len()),
        mean_stochastic(s.as_slice(), stoch_period),
    ) {
        (Some(k), Some(d)) => Ok(StochRsi { k, d }),
        _ => Err(IndicatorError::OutOfRange),
    }
}

// ── RSI Divergence ────────────────────────────────────────────────

/// The closes of a row of candles.
pub open spec fn closes_of(b: Seq<Bar>) -> Seq<int> {
    b.map_values(|x: Bar| x.close)
}

/// Do price and RSI point different ways between two windows?
pub open spec fn diverged(price_prev: int, price_now: int, rsi_prev: int, rsi_now: int) -> Option<
    Direction,
> {
    if price_now < price_prev && rsi_now > rsi_prev && rsi_now < dec(40, 0) {
        Some(Direction::Long)
    } else if price_now > price_prev && rsi_now < rsi_prev && rsi_now > dec(60, 0) {
        Some(Direction::Short)
    } else {
        None
    }
}

pub open spec fn divergence_of(b: Seq<Bar>, period: int) -> Option<Direction> {
    let n = b.len() as int;
    let c = closes_of(b);
    if n < period * 2 + 2 || period == 0 {
        None
    } else {
        match (
            rsi_of(c.subrange(n - period - 1, n), period),
            rsi_of(c.subrange(n - period * 2 - 1, n - period), period),
        ) {
            (Ok(now), Ok(prev)) => diverged(c[n - period - 1], c[n - 1], prev, now),
            _ => None,
        }
    }
}

/// Returns `Some(Direction)` when a classic RSI divergence is present.
///
/// * **Bullish**: price makes lower low, RSI makes higher low (buy signal).
/// * **Bearish**: price makes higher high, RSI makes lower high (sell signal).
///
/// It never fails: too few candles, and an average that leaves the decimal
/// range, show no divergence.
pub fn rsi_divergence(candles: &[Candle], period: usize) -> (r: Result<
    Option<Direction>,
    IndicatorError,
>)
    requires
        period * 2 + 2 <= usize::MAX,
    ensures
        r == Ok::<Option<Direction>, IndicatorError>(
            divergence_of(bars(candles@), period as int),
        ),
{
    let n = candles.len();
    if n < period * 2 + 2 || period == 0 {
        return Ok(None);
    }
    let c = closes(candles);
    let s = c.as_slice();
    proof {
        lemma_values_subrange(c@, n - period - 1, n as int);
        lemma_values_subrange(c@, n - period * 2 - 1, n - period);
        assert(values(c@)[n - 1] == c@[n - 1]@);
        assert(values(c@)[n - period - 1] == c@[n - period - 1]@);
    }
    let now = match rsi(slice_subrange(s, n - period - 1, n), period) {
        Ok(x) => x,
        Err(_) => {
            return Ok(None);
        },
    };
    let prev = match rsi(slice_subrange(s, n - period * 2 - 1, n - period), period) {
        Ok(x) => x,
        Err(_) => {
            return Ok(None);
        },
    };
    let price_now = c[n - 1];
    let price_prev = c[n - period - 1];
    if price_now.less(price_prev) && prev.less(now) && now.less(Decimal::new(40, 0)) {
        return Ok(Some(Direction::Long));
    }
    if price_prev.less(price_now) && now.less(prev) && Decimal::new(60, 0).less(now) {
        return Ok(Some(Direction::Short));
    }
    Ok(None)
}

/// Extracts the close prices from a row of candles.
pub fn closes(candles: &[Candle]) -> (r: Vec<Decimal>)
    ensures
        values(r@) == closes_of(bars(candles@)),
        r@.len() == candles@.len(),
        forall|i: int| 0 <= i < r@.len() ==> #[trigger] r@[i] == candles@[i].close.0,
{
    let mut out: Vec<Decimal> = Vec::new();
    let mut i: usize = 0;
    while i < candles.len()
        invariant
            i <= candles@.len(),
            out@.len() == i,
            forall|j: int| 0 <= j < i ==> #[trigger] out@[j] == candles@[j].close.0,
        decreases candles@.len() - i,
    {
        out.push(candles[i].close.0);
        i = i + 1;
    }
    assert(values(out@) =~= closes_of(bars(candles@)));
    out
}

// ── Laws ──────────────────────────────────────────────────────────

proof fn lemma_moved_sign(c: Seq<int>, n: int, up: bool)
    ensures
        total_moved(c, n, up) matches Some(t) ==> t >= 0,
    decreases n,
{
    if n > 0 {
        lemma_moved_sign(c, n - 1, up);
        if let (Some(t), Some(m)) = (total_moved(c, n - 1, up), moved(c, n - 1, up)) {
            sign_is_kept(t, m);
        }
    }
}

pub proof fn lemma_smoothed_sign(c: Seq<int>, period: int, n: int, up: bool)
    requires
        period > 0,
    ensures
        smoothed(c, period, n, up) matches Some(a) ==> a >= 0,
    decreases n - period,
{
    assert(count(period) > 0);
    if n <= period {
        lemma_moved_sign(c, period, up);
        if let Some(t) = total_moved(c, period, up) {
            sign_is_kept(t, count(period));
        }
    } else {
        lemma_smoothed_sign(c, period, n - 1, up);
        let prev = smoothed(c, period, n - 1, up);
        let kept = o_product(prev, Some(count(period - 1)));
        let whole = o_sum(kept, moved(c, n - 1, up));
        if let Some(a) = prev {
            sign_is_kept(a, count(period - 1));
        }
        if let (Some(a), Some(m)) = (kept, moved(c, n - 1, up)) {
            sign_is_kept(a, m);
        }
        if let Some(a) = whole {
            sign_is_kept(a, count(period));
        }
    }
}

/// The strength index is there for every average gain and loss, and within 0
/// and 100.
pub proof fn an_index_is_there(gain: int, loss: int)
    requires
        gain >= 0,
        loss >= 0,
    ensures
        strength_index(gain, loss) matches Some(x) && 0 <= x <= dec(100, 0),
{
    lemma_pow10_28();
    if loss != 0 {
        let less = min_of(gain, loss);
        let more = max_of(gain, loss);
        assert(0 <= less * one() <= (1 * one()) * more) by (nonlinear_arith)
            requires
                0 <= less <= more,
                one() > 0,
        ;
        nearest_is_there(less * one(), more, 1);
        nearest_keeps_bounds(less * one(), more, 1);
        let ratio = quotient(less, more)->0;
        nearest_is_there(one() + ratio, 1, 2);
        nearest_keeps_bounds(one() + ratio, 1, 1);
        let base = sum(one(), ratio)->0;
        assert(0 <= (100 * one()) * one() <= (100 * one()) * base) by (nonlinear_arith)
            requires
                one() <= base,
                one() > 0,
        ;
        nearest_is_there((100 * one()) * one(), base, 100);
        nearest_keeps_bounds((100 * one()) * one(), base, 100);
        let part = quotient(100 * one(), base)->0;
        nearest_is_there(100 * one() - part, 1, 100);
        nearest_keeps_bounds(100 * one() - part, 1, 100);
    }
}

/// The RSI is there wherever both averages are, and then it is never below 0
/// and never above 100.
pub proof fn rsi_stays_in_range(c: Seq<int>, period: int)
    requires
        0 < period < c.len(),
    ensures
        rsi_of(c, period) is Ok <==> (smoothed(c, period, c.len() - 1, true) is Some && smoothed(
            c,
            period,
            c.len() - 1,
            false,
        ) is Some),
        rsi_of(c, period) matches Ok(x) ==> 0 <= x <= dec(100, 0),
{
    let n = c.len() - 1;
    lemma_smoothed_sign(c, period, n, true);
    lemma_smoothed_sign(c, period, n, false);
    if let (Some(gain), Some(loss)) = (smoothed(c, period, n, true), smoothed(c, period, n, false)) {
        an_index_is_there(gain, loss);
    }
}

proof fn lemma_zero_representable()
    ensures
        representable(0),
{
    assert(dec(0, 0) == 0);
}

/// Nothing that never moves in a direction has an average move in it.
proof fn lemma_no_moves(c: Seq<int>, period: int, n: int, up: bool)
    requires
        period > 0,
        forall|i: int| 0 <= i < n || 0 <= i < period ==> #[trigger] moved(c, i, up) == Some(0int),
    ensures
        smoothed(c, period, n, up) == Some(0int),
    decreases n - period,
{
    lemma_zero_representable();
    neutral_elements(0);
    nearest_is_exact(0, count(period));
    assert(quotient(0, count(period)) == Some(0int));
    if n <= period {
        lemma_no_total(c, period, up);
    } else {
        lemma_no_moves(c, period, n - 1, up);
        nearest_is_exact(0, one());
        assert(0 * count(period - 1) == 0) by (nonlinear_arith);
        assert(product(0, count(period - 1)) == Some(0int));
        assert(moved(c, n - 1, up) == Some(0int));
    }
}

proof fn lemma_no_total(c: Seq<int>, n: int, up: bool)
    requires
        forall|i: int| 0 <= i < n ==> #[trigger] moved(c, i, up) == Some(0int),
    ensures
        total_moved(c, n, up) == Some(0int),
    decreases n,
{
    lemma_zero_representable();
    neutral_elements(0);
    if n > 0 {
        lemma_no_total(c, n - 1, up);
        assert(moved(c, n - 1, up) == Some(0int));
    }
}

/// An average that is in range comes of moves that are.
proof fn lemma_moves_in_range(c: Seq<int>, period: int, n: int, up: bool)
    requires
        0 < period <= n,
        smoothed(c, period, n, up) is Some,
    ensures
        forall|i: int| 0 <= i < n ==> #[trigger] moved(c, i, up) is Some,
    decreases n,
{
    if n == period {
        lemma_total_in_range(c, period, up);
    } else {
        lemma_moves_in_range(c, period, n - 1, up);
    }
}

proof fn lemma_total_in_range(c: Seq<int>, n: int, up: bool)
    requires
        total_moved(c, n, up) is Some,
    ensures
        forall|i: int| 0 <= i < n ==> #[trigger] moved(c, i, up) is Some,
    decreases n,
{
    if n > 0 {
        lemma_total_in_range(c, n - 1, up);
    }
}

/// Where no value is below the one before it, the RSI is 100.
pub proof fn rsi_without_losses(c: Seq<int>, period: int)
    requires
        period > 0,
        forall|i: int| 0 <= i < c.len() - 1 ==> #[trigger] c[i] <= c[i + 1],
    ensures
        rsi_of(c, period) matches Ok(x) ==> x == dec(100, 0),
{
    if rsi_of(c, period) is Ok {
        lemma_moves_in_range(c, period, c.len() - 1, false);
        assert forall|i: int| 0 <= i < c.len() - 1 implies #[trigger] moved(c, i, false) == Some(
            0int,
        ) by {
            assert(moved(c, i, false) is Some);
            assert(c[i] <= c[i + 1]);
            nearest_keeps_bounds(c[i + 1] - c[i], 1, 0);
        }
        lemma_no_moves(c, period, c.len() - 1, false);
    }
}

/// Where no value is above the one before it and the average loss is not
/// zero, the RSI is 0.
pub proof fn rsi_without_gains(c: Seq<int>, period: int)
    requires
        period > 0,
        forall|i: int| 0 <= i < c.len() - 1 ==> #[trigger] c[i] >= c[i + 1],
        smoothed(c, period, c.len() - 1, false) != Some(0int),
    ensures
        rsi_of(c, period) matches Ok(x) ==> x == 0,
{
    lemma_pow10_28();
    if rsi_of(c, period) is Ok {
        lemma_moves_in_range(c, period, c.len() - 1, true);
        assert forall|i: int| 0 <= i < c.len() - 1 implies #[trigger] moved(c, i, true) == Some(
            0int,
        ) by {
            assert(moved(c, i, true) is Some);
            assert(c[i] >= c[i + 1]);
            nearest_is_odd(c[i] - c[i + 1], 1);
            nearest_keeps_bounds(c[i] - c[i + 1], 1, 0);
        }
        lemma_no_moves(c, period, c.len() - 1, true);
        lemma_smoothed_sign(c, period, c.len() - 1, false);
        let l = smoothed(c, period, c.len() - 1, false)->0;
        lemma_zero_representable();
        nearest_is_exact(0, l);
        assert(quotient(0, l) == Some(0int));
        assert(representable(one())) by {
            assert(dec(1, 0) == one());
        }
        assert(representable(100 * one())) by {
            assert(dec(100, 0) == 100 * one());
        }
        neutral_elements(one());
        neutral_elements(100 * one());
    }
}

/// The average true range is never negative.
pub proof fn atr_is_not_negative(b: Seq<Bar>, period: int)
    requires
        period >= 0,
    ensures
        atr_of(b, period) matches Ok(x) ==> x >= 0,
{
    if atr_of(b, period) is Ok {
        let n = b.len() as int;
        lemma_range_sign(b, n - period, n);
        sign_is_kept(total_range(b, n - period, n)->0, count(period));
    }
}

proof fn lemma_range_sign(b: Seq<Bar>, lo: int, hi: int)
    ensures
        total_range(b, lo, hi) matches Some(t) ==> t >= 0,
    decreases hi - lo,
{
    if hi > lo {
        lemma_range_sign(b, lo, hi - 1);
        if let (Some(t), Some(r)) = (total_range(b, lo, hi - 1), true_range(b, hi - 1)) {
            sign_is_kept(t, r);
        }
    }
}

pub proof fn lemma_extremes(s: Seq<int>, lo: int, hi: int)
    requires
        0 <= lo < hi <= s.len(),
    ensures
        forall|i: int|
            lo <= i < hi ==> smallest(s, lo, hi) <= #[trigger] s[i] <= largest(s, lo, hi),
    decreases hi - lo,
{
    if hi - lo > 1 {
        lemma_extremes(s, lo, hi - 1);
    }
}

pub proof fn lemma_series_length(c: Seq<int>, period: int, n: int)
    requires
        0 <= period <= n,
    ensures
        rsi_series(c, period, n) matches Ok(s) ==> s.len() == n - period,
    decreases n - period,
{
    if n > period {
        lemma_series_length(c, period, n - 1);
    }
}

proof fn lemma_stochastic_window(s: Seq<int>, width: int, n: int)
    requires
        0 < width <= n <= s.len(),
    ensures
        stochastic(s, width, n) matches Some(k) ==> 0 <= k <= dec(100, 0),
        difference(largest(s, n - width, n), smallest(s, n - width, n)) is Some ==> stochastic(
            s,
            width,
            n,
        ) is Some,
{
    lemma_pow10_28();
    lemma_extremes(s, n - width, n);
    let low = smallest(s, n - width, n);
    let high = largest(s, n - width, n);
    assert(low <= s[n - 1] <= high);
    if difference(high, low) is Some && difference(high, low) != Some(0int) {
        let range = difference(high, low)->0;
        nearest_is_monotone(s[n - 1] - low, high - low, 1);
        let part = difference(s[n - 1], low)->0;
        nearest_keeps_bounds(s[n - 1] - low, 1, 0);
        assert(0 <= part * one() <= (1 * one()) * range) by (nonlinear_arith)
            requires
                0 <= part <= range,
                one() > 0,
        ;
        nearest_is_there(part * one(), range, 1);
        nearest_keeps_bounds(part * one(), range, 1);
        let q = quotient(part, range)->0;
        assert(0 <= q * (100 * one()) <= (100 * one()) * one()) by (nonlinear_arith)
            requires
                0 <= q <= one(),
                one() > 0,
        ;
        nearest_is_there(q * (100 * one()), one(), 100);
        nearest_keeps_bounds(q * (100 * one()), one(), 100);
    }
}

/// Sums of at most three %K, and the mean of them.
proof fn lemma_stochastic_total(s: Seq<int>, width: int, lo: int, hi: int)
    requires
        0 < width <= lo + 1,
        0 <= lo <= hi <= s.len(),
        hi - lo <= 3,
    ensures
        total_stochastic(s, width, lo, hi) matches Some(t) ==> 0 <= t <= (100 * (hi - lo)) * one(),
        (forall|n: int| lo < n <= hi ==> #[trigger] stochastic(s, width, n) is Some)
            ==> total_stochastic(s, width, lo, hi) is Some,
    decreases hi - lo,
{
    lemma_pow10_28();
    if hi > lo {
        lemma_stochastic_total(s, width, lo, hi - 1);
        lemma_stochastic_window(s, width, hi);
        if let (Some(t), Some(k)) = (
            total_stochastic(s, width, lo, hi - 1),
            stochastic(s, width, hi),
        ) {
            nearest_is_there(t + k, 1, 100 * (hi - lo));
            nearest_keeps_bounds(t + k, 1, 100 * (hi - lo));
        }
    }
}

proof fn lemma_stochastic_mean(s: Seq<int>, width: int)
    requires
        0 < width <= s.len(),
    ensures
        stochastic_mean(s, width) matches Some(d) ==> 0 <= d <= dec(100, 0),
        (forall|n: int| width <= n <= s.len() ==> #[trigger] stochastic(s, width, n) is Some)
            ==> stochastic_mean(s, width) is Some,
{
    lemma_pow10_28();
    let n = s.len() as int;
    let taken = averaged(n, width);
    lemma_stochastic_total(s, width, n - taken, n);
    if let Some(t) = total_stochastic(s, width, n - taken, n) {
        let e = one();
        assert(0 <= t * e <= (100 * e) * (taken * e)) by (nonlinear_arith)
            requires
                0 <= t <= (100 * taken) * e,
                e > 0,
        ;
        assert(count(taken) > 0) by (nonlinear_arith)
            requires
                count(taken) == taken * e,
                taken > 0,
                e > 0,
        ;
        nearest_is_there(t * e, count(taken), 100);
        nearest_keeps_bounds(t * e, count(taken), 100);
    }
}

/// Neither line of the stochastic RSI is ever below 0 or above 100.
pub proof fn stoch_rsi_stays_in_range(c: Seq<int>, rsi_period: int, stoch_period: int)
    requires
        rsi_period >= 0,
        stoch_period > 0,
    ensures
        stoch_rsi_of(c, rsi_period, stoch_period) matches Ok(s) ==> 0 <= s.k <= dec(100, 0) && 0
            <= s.d <= dec(100, 0),
{
    if stoch_rsi_of(c, rsi_period, stoch_period) is Ok {
        lemma_series_length(c, rsi_period, c.len() as int);
        let s = rsi_series(c, rsi_period, c.len() as int)->Ok_0;
        lemma_stochastic_window(s, stoch_period, s.len() as int);
        lemma_stochastic_mean(s, stoch_period);
    }
}

/// The stochastic RSI is there wherever the RSI is all along.
pub proof fn stoch_rsi_is_there(c: Seq<int>, rsi_period: int, stoch_period: int)
    requires
        0 < rsi_period,
        0 < stoch_period,
        rsi_period + stoch_period < c.len(),
        forall|n: int|
            rsi_period < n <= c.len() ==> #[trigger] rsi_of(c.subrange(0, n), rsi_period) is Ok,
    ensures
        stoch_rsi_of(c, rsi_period, stoch_period) is Ok,
{
    let s = lemma_series_is_there(c, rsi_period, c.len() as int);
    assert forall|n: int| stoch_period <= n <= s.len() implies #[trigger] stochastic(
        s,
        stoch_period,
        n,
    ) is Some by {
        lemma_extremes(s, n - stoch_period, n);
        lemma_extreme_member(s, n - stoch_period, n);
        let low = smallest(s, n - stoch_period, n);
        let high = largest(s, n - stoch_period, n);
        lemma_pow10_28();
        nearest_is_there(high - low, 1, 100);
        lemma_stochastic_window(s, stoch_period, n);
    }
    lemma_stochastic_mean(s, stoch_period);
}

pub proof fn lemma_extreme_member(s: Seq<int>, lo: int, hi: int)
    requires
        0 <= lo < hi <= s.len(),
    ensures
        exists|i: int| lo <= i < hi && #[trigger] s[i] == smallest(s, lo, hi),
        exists|i: int| lo <= i < hi && #[trigger] s[i] == largest(s, lo, hi),
    decreases hi - lo,
{
    if hi - lo > 1 {
        lemma_extreme_member(s, lo, hi - 1);
        assert(s[hi - 1] == s[hi - 1]);
    } else {
        assert(s[lo] == smallest(s, lo, hi));
    }
}

proof fn lemma_series_is_there(c: Seq<int>, period: int, n: int) -> (s: Seq<int>)
    requires
        0 < period <= n <= c.len(),
        forall|m: int| period < m <= n ==> #[trigger] rsi_of(c.subrange(0, m), period) is Ok,
    ensures
        rsi_series(c, period, n) == Ok::<Seq<int>, IndicatorError>(s),
        s.len() == n - period,
        forall|i: int| 0 <= i < s.len() ==> 0 <= #[trigger] s[i] <= dec(100, 0),
    decreases n - period,
{
    if n <= period {
        seq![]
    } else {
        let before = lemma_series_is_there(c, period, n - 1);
        assert(rsi_of(c.subrange(0, n), period) is Ok);
        rsi_stays_in_range(c.subrange(0, n), period);
        before.push(rsi_of(c.subrange(0, n), period)->Ok_0)
    }
}

/// %K is 100 where the newest RSI is above every other one of its window, 0
/// where it is below every other one, and 50 where all of them are the same.
pub proof fn stoch_rsi_at_the_extremes(c: Seq<int>, rsi_period: int, stoch_period: int)
    requires
        rsi_period >= 0,
        stoch_period > 0,
        stoch_rsi_of(c, rsi_period, stoch_period) is Ok,
    ensures
        ({
            let s = rsi_series(c, rsi_period, c.len() as int)->Ok_0;
            let n = s.len() as int;
            let k = stoch_rsi_of(c, rsi_period, stoch_period)->Ok_0.k;
            &&& stoch_period > 1 && (forall|i: int|
                n - stoch_period <= i < n - 1 ==> #[trigger] s[i] < s[n - 1]) ==> k == dec(100, 0)
            &&& stoch_period > 1 && (forall|i: int|
                n - stoch_period <= i < n - 1 ==> #[trigger] s[i] > s[n - 1]) ==> k == 0
            &&& (forall|i: int| n - stoch_period <= i < n - 1 ==> #[trigger] s[i] == s[n - 1])
                ==> k == dec(50, 0)
        }),
{
    let s = rsi_series(c, rsi_period, c.len() as int)->Ok_0;
    lemma_series_length(c, rsi_period, c.len() as int);
    lemma_stochastic_extremes(s, stoch_period);
}

proof fn lemma_stochastic_extremes(s: Seq<int>, width: int)
    requires
        0 < width <= s.len(),
        stochastic(s, width, s.len() as int) is Some,
    ensures
        ({
            let n = s.len() as int;
            let k = stochastic(s, width, n);
            &&& width > 1 && (forall|i: int| n - width <= i < n - 1 ==> #[trigger] s[i] < s[n - 1])
                ==> k == Some(dec(100, 0))
            &&& width > 1 && (forall|i: int| n - width <= i < n - 1 ==> #[trigger] s[i] > s[n - 1])
                ==> k == Some(0int)
            &&& (forall|i: int| n - width <= i < n - 1 ==> #[trigger] s[i] == s[n - 1]) ==> k
                == Some(dec(50, 0))
        }),
{
    lemma_pow10_28();
    let n = s.len() as int;
    let low = smallest(s, n - width, n);
    let high = largest(s, n - width, n);
    lemma_extremes(s, n - width, n);
    lemma_extreme_member(s, n - width, n);
    assert(s[n - 1] == s[n - 1]);
    assert(representable(0)) by {
        assert(dec(0, 0) == 0);
    }
    assert(representable(100 * one())) by {
        assert(dec(100, 0) == 100 * one());
    }
    assert(representable(one())) by {
        assert(dec(1, 0) == one());
    }
    nearest_is_exact(0, 1);
    neutral_elements(100 * one());
    if difference(high, low) is Some && high > low {
        let range = difference(high, low)->0;
        nearest_keeps_bounds(high - low, 1, 0);
        if range != 0 {
            nearest_is_exact(one(), range);
            assert(range * one() == one() * range) by (nonlinear_arith);
            nearest_is_exact(0, range);
            assert(0 * range == 0);
            nearest_is_exact(0, one());
            assert(quotient(range, range) == Some(one()));
            assert(quotient(0, range) == Some(0int));
        } else {
            a_difference_shows(high, low);
        }
        if forall|i: int| n - width <= i < n - 1 ==> #[trigger] s[i] < s[n - 1] {
            assert(s[n - 2] < s[n - 1]);
            assert(high == s[n - 1]);
        }
        if forall|i: int| n - width <= i < n - 1 ==> #[trigger] s[i] > s[n - 1] {
            assert(s[n - 2] > s[n - 1]);
            assert(low == s[n - 1]);
        }
    }
    if width > 1 {
        assert(s[n - 2] == s[n - 2]);
    }
}

} // verus!
