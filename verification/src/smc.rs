//! Smart Money Concept detectors: order blocks, fair value gaps, breaks of
//! structure, changes of character and liquidity sweeps.  All of them look at
//! a row of candles and nothing else.

use vstd::prelude::*;
use vstd::string::*;

use crate::decimal::{
    dec, difference, lemma_dec_monotone, lemma_dec_zeros, max_of, min_of, o_difference, o_magnitude,
    o_product, o_quotient, o_sum, pow10, product, quotient, try_abs, try_difference, try_product,
    try_quotient, try_sum, Decimal,
};
use crate::text::{cut, fixed, fixed_text, texts};
use crate::types::{bars, Bar, Candle, Direction, Price};

verus! {

// ── Order Block ───────────────────────────────────────────────────

/// The last opposing candle before a significant impulsive move.
///
/// * **Bullish OB**: bearish candle before a rally of at least 1.5 %.
/// * **Bearish OB**: bullish candle before a sell-off of at least 1.5 %.
#[derive(Debug, Clone, Copy)]
pub struct OrderBlock {
    pub high: Price,
    pub low: Price,
    pub dir: Direction,
    /// Body size as % of candle range (0–100).  Higher = stronger.
    pub strength: Decimal,
}

/// What an order block stands for.
pub struct Block {
    pub high: int,
    pub low: int,
    pub dir: Direction,
    pub strength: int,
}

impl View for OrderBlock {
    type V = Block;

    open spec fn view(&self) -> Block {
        Block { high: self.high@, low: self.low@, dir: self.dir, strength: self.strength@ }
    }
}

pub open spec fn blocks(s: Seq<OrderBlock>) -> Seq<Block> {
    s.map_values(|b: OrderBlock| b@)
}

impl Block {
    /// Is `price` inside the block, or within `tolerance_pct` percent of it?
    pub open spec fn contains(self, price: int, tolerance_pct: int) -> Option<bool> {
        let tol = quotient(tolerance_pct, dec(100, 0));
        let low = o_product(Some(self.low), o_difference(Some(dec(1, 0)), tol));
        let high = o_product(Some(self.high), o_sum(Some(dec(1, 0)), tol));
        match (low, high) {
            (Some(l), Some(h)) => Some(l <= price && price <= h),
            _ => None,
        }
    }
}

impl OrderBlock {
    /// Is `price` currently inside (or within `tolerance_pct` of) this block?
    /// `None` where a step leaves the decimal range.
    pub fn contains(&self, price: Price, tolerance_pct: Decimal) -> (r: Option<bool>)
        ensures
            r == self@.contains(price@, tolerance_pct@),
    {
        let one = Some(Decimal::new(1, 0));
        let tol = tolerance_pct.checked_div(Decimal::new(100, 0));
        let low = try_product(Some(self.low.0), try_difference(one, tol));
        let high = try_product(Some(self.high.0), try_sum(one, tol));
        match (low, high) {
            (Some(l), Some(h)) => Some(l.at_most(price.0) && price.0.at_most(h)),
            _ => None,
        }
    }
}

/// Does one of the (at most four) candles after `i` close at or above `level`?
pub open spec fn rallies(b: Seq<Bar>, i: int, level: int) -> bool {
    exists|j: int| i < j <= i + 4 && j < b.len() && (#[trigger] b[j]).close >= level
}

/// Does one of the (at most four) candles after `i` close at or below `level`?
pub open spec fn sells_off(b: Seq<Bar>, i: int, level: int) -> bool {
    exists|j: int| i < j <= i + 4 && j < b.len() && (#[trigger] b[j]).close <= level
}

/// The order block that candle `i` is, if it is one.  `None` where a step
/// leaves the decimal range.
pub open spec fn block_at(b: Seq<Bar>, i: int) -> Option<Option<Block>> {
    let c = b[i];
    let range = difference(c.high, c.low);
    let strength = o_product(
        o_quotient(o_magnitude(difference(c.close, c.open)), range),
        Some(dec(100, 0)),
    );
    if range == Some(0int) {
        Some(None)
    } else {
        match strength {
            None => None,
            Some(s) => if c.close < c.open {
                match product(c.open, dec(1015, 3)) {
                    None => None,
                    Some(level) => if rallies(b, i, level) {
                        Some(
                            Some(
                                Block { high: c.open, low: c.low, dir: Direction::Long, strength: s },
                            ),
                        )
                    } else {
                        Some(None)
                    },
                }
            } else if c.close > c.open {
                match product(c.open, dec(985, 3)) {
                    None => None,
                    Some(level) => if sells_off(b, i, level) {
                        Some(
                            Some(
                                Block {
                                    high: c.high,
                                    low: c.open,
                                    dir: Direction::Short,
                                    strength: s,
                                },
                            ),
                        )
                    } else {
                        Some(None)
                    },
                }
            } else {
                Some(None)
            },
        }
    }
}

/// The order blocks among the candles from the second up to before `i`, in
/// their order.
pub open spec fn blocks_before(b: Seq<Bar>, i: int) -> Option<Seq<Block>>
    decreases i,
{
    if i <= 1 {
        Some(seq![])
    } else {
        match (blocks_before(b, i - 1), block_at(b, i - 1)) {
            (Some(s), Some(Some(x))) => Some(s.push(x)),
            (Some(s), Some(None)) => Some(s),
            _ => None,
        }
    }
}

/// All order blocks of a row of candles: the first candle and the last three
/// are none, and a row of fewer than six has none.
pub open spec fn order_blocks(b: Seq<Bar>) -> Option<Seq<Block>> {
    if b.len() < 6 {
        Some(seq![])
    } else {
        blocks_before(b, b.len() - 3)
    }
}

proof fn lemma_blocks_fail(b: Seq<Bar>, i: int, j: int)
    requires
        i <= j,
        blocks_before(b, i) is None,
    ensures
        blocks_before(b, j) is None,
    decreases j - i,
{
    if i < j {
        lemma_blocks_fail(b, i, j - 1);
    }
}

fn close_reaches(candles: &[Candle], i: usize, level: Decimal, above: bool) -> (r: bool)
    requires
        i < candles@.len(),
    ensures
        r == (if above {
            rallies(bars(candles@), i as int, level@)
        } else {
            sells_off(bars(candles@), i as int, level@)
        }),
{
    let ghost b = bars(candles@);
    let n = candles.len();
    let mut j: usize = i + 1;
    while j < n && j - i <= 4
        invariant
            n == candles@.len(),
            i < j <= n,
            j - i <= 5,
            b == bars(candles@),
            above ==> forall|k: int| i < k < j ==> (#[trigger] b[k]).close < level@,
            !above ==> forall|k: int| i < k < j ==> (#[trigger] b[k]).close > level@,
        decreases n - j,
    {
        let close = candles[j].close.0;
        assert(b[j as int].close == close@);
        if above && level.at_most(close) {
            return true;
        }
        if !above && close.at_most(level) {
            return true;
        }
        j = j + 1;
    }
    false
}

fn block_of(candles: &[Candle], i: usize) -> (r: Option<Option<OrderBlock>>)
    requires
        i < candles@.len(),
    ensures
        match r {
            None => block_at(bars(candles@), i as int) is None,
            Some(None) => block_at(bars(candles@), i as int) == Some(None::<Block>),
            Some(Some(x)) => block_at(bars(candles@), i as int) == Some(Some(x@)),
        },
{
    let c = &candles[i];
    assert(bars(candles@)[i as int] == c@);
    let range = c.high.0.checked_sub(c.low.0);
    if let Some(w) = range {
        if w.is_zero() {
            return Some(None);
        }
    }
    let strength = try_product(
        try_quotient(try_abs(c.close.0.checked_sub(c.open.0)), range),
        Some(Decimal::new(100, 0)),
    );
    let s = match strength {
        None => {
            return None;
        },
        Some(s) => s,
    };
    if c.close.0.less(c.open.0) {
        let level = match c.open.0.checked_mul(Decimal::new(1015, 3)) {
            None => {
                return None;
            },
            Some(level) => level,
        };
        if close_reaches(candles, i, level, true) {
            return Some(
                Some(OrderBlock { high: c.open, low: c.low, dir: Direction::Long, strength: s }),
            );
        }
    } else if c.open.0.less(c.close.0) {
        let level = match c.open.0.checked_mul(Decimal::new(985, 3)) {
            None => {
                return None;
            },
            Some(level) => level,
        };
        if close_reaches(candles, i, level, false) {
            return Some(
                Some(OrderBlock { high: c.high, low: c.open, dir: Direction::Short, strength: s }),
            );
        }
    }
    Some(None)
}

/// Finds the order blocks.  `None` where a step leaves the decimal range.
pub fn find_order_blocks(candles: &[Candle]) -> (r: Option<Vec<OrderBlock>>)
    ensures
        match r {
            Some(v) => order_blocks(bars(candles@)) == Some(blocks(v@)),
            None => order_blocks(bars(candles@)) is None,
        },
{
    let ghost b = bars(candles@);
    let mut out: Vec<OrderBlock> = Vec::new();
    let n = candles.len();
    if n < 6 {
        assert(blocks(out@) =~= seq![]);
        return Some(out);
    }
    let mut i: usize = 1;
    assert(blocks(out@) =~= seq![]);
    while i < n - 3
        invariant
            n == candles@.len(),
            6 <= n,
            1 <= i <= n - 3,
            b == bars(candles@),
            blocks_before(b, i as int) == Some(blocks(out@)),
        decreases n - i,
    {
        match block_of(candles, i) {
            None => {
                proof {
                    lemma_blocks_fail(b, i + 1, n - 3);
                }
                return None;
            },
            Some(None) => {},
            Some(Some(x)) => {
                let ghost before = out@;
                out.push(x);
                assert(blocks(out@) =~= blocks(before).push(x@));
            },
        }
        i = i + 1;
    }
    Some(out)
}

// ── Fair Value Gap ────────────────────────────────────────────────

/// A 3-candle price imbalance where the market moved too fast to leave
/// overlapping wicks.
#[derive(Debug, Clone, Copy)]
pub struct FairValueGap {
    pub high: Price,
    pub low: Price,
    pub dir: Direction,
}

/// What a fair value gap stands for.
pub struct Gap {
    pub high: int,
    pub low: int,
    pub dir: Direction,
}

impl View for FairValueGap {
    type V = Gap;

    open spec fn view(&self) -> Gap {
        Gap { high: self.high@, low: self.low@, dir: self.dir }
    }
}

pub open spec fn gaps(s: Seq<FairValueGap>) -> Seq<Gap> {
    s.map_values(|g: FairValueGap| g@)
}

impl Gap {
    pub open spec fn contains(self, price: int) -> bool {
        self.low <= price <= self.high
    }
}

impl FairValueGap {
    pub fn contains(&self, price: Price) -> (r: bool)
        ensures
            r == self@.contains(price@),
    {
        self.low.0.at_most(price.0) && price.0.at_most(self.high.0)
    }
}

/// The gap between a candle and the one after the next, if there is one.
pub open spec fn gap_between(first: Bar, third: Bar) -> Option<Gap> {
    if third.low > first.high {
        Some(Gap { high: third.low, low: first.high, dir: Direction::Long })
    } else if third.high < first.low {
        Some(Gap { high: first.low, low: third.high, dir: Direction::Short })
    } else {
        None
    }
}

/// The gaps that the first `n` windows of three candles show, in their order.
pub open spec fn gaps_before(b: Seq<Bar>, n: int) -> Seq<Gap>
    decreases n,
{
    if n <= 0 {
        seq![]
    } else {
        match gap_between(b[n - 1], b[n + 1]) {
            Some(g) => gaps_before(b, n - 1).push(g),
            None => gaps_before(b, n - 1),
        }
    }
}

/// All gaps of a row of candles.
pub open spec fn fair_value_gaps(b: Seq<Bar>) -> Seq<Gap> {
    gaps_before(b, b.len() - 2)
}

pub fn find_fvgs(candles: &[Candle]) -> (r: Vec<FairValueGap>)
    ensures
        gaps(r@) == fair_value_gaps(bars(candles@)),
{
    let ghost b = bars(candles@);
    let mut out: Vec<FairValueGap> = Vec::new();
    let n = candles.len();
    assert(gaps(out@) =~= seq![]);
    if n < 3 {
        return out;
    }
    let mut i: usize = 0;
    while i < n - 2
        invariant
            n == candles@.len(),
            3 <= n,
            i <= n - 2,
            b == bars(candles@),
            gaps(out@) == gaps_before(b, i as int),
        decreases n - i,
    {
        let first = &candles[i];
        let third = &candles[i + 2];
        assert(b[i as int] == first@);
        assert(b[i + 2] == third@);
        let ghost before = out@;
        if first.high.0.less(third.low.0) {
            let g = FairValueGap { high: third.low, low: first.high, dir: Direction::Long };
            out.push(g);
            assert(gaps(out@) =~= gaps(before).push(g@));
        } else if third.high.0.less(first.low.0) {
            let g = FairValueGap { high: first.low, low: third.high, dir: Direction::Short };
            out.push(g);
            assert(gaps(out@) =~= gaps(before).push(g@));
        }
        i = i + 1;
    }
    out
}

// ── Highs and lows ────────────────────────────────────────────────

/// The highest high of the candles `lo..hi` (there is at least one).
pub open spec fn highest(b: Seq<Bar>, lo: int, hi: int) -> int
    decreases hi - lo,
{
    if hi - lo <= 1 {
        b[lo].high
    } else {
        max_of(highest(b, lo, hi - 1), b[hi - 1].high)
    }
}

/// The lowest low of the candles `lo..hi` (there is at least one).
pub open spec fn lowest(b: Seq<Bar>, lo: int, hi: int) -> int
    decreases hi - lo,
{
    if hi - lo <= 1 {
        b[lo].low
    } else {
        min_of(lowest(b, lo, hi - 1), b[hi - 1].low)
    }
}

/// The highest high is the high of one of the candles, and none is above it.
pub proof fn highest_is_the_maximum(b: Seq<Bar>, lo: int, hi: int)
    requires
        0 <= lo < hi <= b.len(),
    ensures
        forall|i: int| lo <= i < hi ==> (#[trigger] b[i]).high <= highest(b, lo, hi),
        exists|i: int| lo <= i < hi && (#[trigger] b[i]).high == highest(b, lo, hi),
    decreases hi - lo,
{
    if hi - lo <= 1 {
        assert(b[lo].high == highest(b, lo, hi));
    } else {
        highest_is_the_maximum(b, lo, hi - 1);
        assert(b[hi - 1].high <= highest(b, lo, hi));
    }
}

/// The lowest low is the low of one of the candles, and none is below it.
pub proof fn lowest_is_the_minimum(b: Seq<Bar>, lo: int, hi: int)
    requires
        0 <= lo < hi <= b.len(),
    ensures
        forall|i: int| lo <= i < hi ==> (#[trigger] b[i]).low >= lowest(b, lo, hi),
        exists|i: int| lo <= i < hi && (#[trigger] b[i]).low == lowest(b, lo, hi),
    decreases hi - lo,
{
    if hi - lo <= 1 {
        assert(b[lo].low == lowest(b, lo, hi));
    } else {
        lowest_is_the_minimum(b, lo, hi - 1);
        assert(b[hi - 1].low >= lowest(b, lo, hi));
    }
}

fn highest_high(candles: &[Candle], lo: usize, hi: usize) -> (r: Decimal)
    requires
        lo < hi <= candles@.len(),
    ensures
        r@ == highest(bars(candles@), lo as int, hi as int),
{
    let ghost b = bars(candles@);
    let mut best = candles[lo].high.0;
    assert(b[lo as int].high == best@);
    let mut i: usize = lo + 1;
    while i < hi
        invariant
            lo < i <= hi <= candles@.len(),
            b == bars(candles@),
            best@ == highest(b, lo as int, i as int),
        decreases hi - i,
    {
        assert(b[i as int].high == candles@[i as int].high@);
        best = best.larger(candles[i].high.0);
        i = i + 1;
    }
    best
}

fn lowest_low(candles: &[Candle], lo: usize, hi: usize) -> (r: Decimal)
    requires
        lo < hi <= candles@.len(),
    ensures
        r@ == lowest(bars(candles@), lo as int, hi as int),
{
    let ghost b = bars(candles@);
    let mut best = candles[lo].low.0;
    assert(b[lo as int].low == best@);
    let mut i: usize = lo + 1;
    while i < hi
        invariant
            lo < i <= hi <= candles@.len(),
            b == bars(candles@),
            best@ == lowest(b, lo as int, i as int),
        decreases hi - i,
    {
        assert(b[i as int].low == candles@[i as int].low@);
        best = best.smaller(candles[i].low.0);
        i = i + 1;
    }
    best
}

// ── Break of Structure ────────────────────────────────────────────

/// The break that the last candle's close makes of the 19 candles before it.
pub open spec fn structure_break(b: Seq<Bar>) -> Option<Direction> {
    let n = b.len() as int;
    if n < 20 {
        None
    } else if b[n - 1].close > highest(b, n - 20, n - 1) {
        Some(Direction::Long)
    } else if b[n - 1].close < lowest(b, n - 20, n - 1) {
        Some(Direction::Short)
    } else {
        None
    }
}

/// A confirmed close above the previous swing high (bullish BOS) or
/// below the previous swing low (bearish BOS).
pub fn detect_bos(candles: &[Candle]) -> (r: Option<Direction>)
    ensures
        r == structure_break(bars(candles@)),
{
    let n = candles.len();
    if n < 20 {
        return None;
    }
    let swing_high = highest_high(candles, n - 20, n - 1);
    let swing_low = lowest_low(candles, n - 20, n - 1);
    let close = candles[n - 1].close.0;
    assert(bars(candles@)[n - 1].close == close@);
    if swing_high.less(close) {
        return Some(Direction::Long);
    }
    if close.less(swing_low) {
        return Some(Direction::Short);
    }
    None
}

// ── Change of Character ───────────────────────────────────────────

/// Does one of the candles `lo..hi` close above `level`?
pub open spec fn closes_above(b: Seq<Bar>, lo: int, hi: int, level: int) -> bool {
    exists|i: int| lo <= i < hi && (#[trigger] b[i]).close > level
}

/// Does one of the candles `lo..hi` close below `level`?
pub open spec fn closes_below(b: Seq<Bar>, lo: int, hi: int, level: int) -> bool {
    exists|i: int| lo <= i < hi && (#[trigger] b[i]).close < level
}

/// The break that the last candle's close makes of the older 20 of the last
/// 40 candles, against their trend, where no candle between did so before.
pub open spec fn character_change(b: Seq<Bar>) -> Option<Direction> {
    let n = b.len() as int;
    if n < 40 {
        None
    } else {
        let from = b[n - 40].open;
        let to = b[n - 21].close;
        let close = b[n - 1].close;
        let prev_high = highest(b, n - 40, n - 20);
        let prev_low = lowest(b, n - 40, n - 20);
        if to < from && close > prev_high && !closes_above(b, n - 20, n - 1, prev_high) {
            Some(Direction::Long)
        } else if to > from && close < prev_low && !closes_below(b, n - 20, n - 1, prev_low) {
            Some(Direction::Short)
        } else {
            None
        }
    }
}

fn any_close_beyond(candles: &[Candle], lo: usize, hi: usize, level: Decimal, above: bool) -> (r:
    bool)
    requires
        lo <= hi <= candles@.len(),
    ensures
        r == (if above {
            closes_above(bars(candles@), lo as int, hi as int, level@)
        } else {
            closes_below(bars(candles@), lo as int, hi as int, level@)
        }),
{
    let ghost b = bars(candles@);
    let mut i: usize = lo;
    while i < hi
        invariant
            lo <= i <= hi <= candles@.len(),
            b == bars(candles@),
            above ==> forall|k: int| lo <= k < i ==> (#[trigger] b[k]).close <= level@,
            !above ==> forall|k: int| lo <= k < i ==> (#[trigger] b[k]).close >= level@,
        decreases hi - i,
    {
        let close = candles[i].close.0;
        assert(b[i as int].close == close@);
        if above && level.less(close) {
            return true;
        }
        if !above && close.less(level) {
            return true;
        }
        i = i + 1;
    }
    false
}

/// The *first* BOS that contradicts the previous 20-candle trend.  This
/// signals a potential trend reversal rather than continuation.
pub fn detect_choch(candles: &[Candle]) -> (r: Option<Direction>)
    ensures
        r == character_change(bars(candles@)),
{
    let n = candles.len();
    if n < 40 {
        return None;
    }
    let from = candles[n - 40].open.0;
    let to = candles[n - 21].close.0;
    let close = candles[n - 1].close.0;
    assert(bars(candles@)[n - 40].open == from@);
    assert(bars(candles@)[n - 21].close == to@);
    assert(bars(candles@)[n - 1].close == close@);
    // Previous trend bearish → look for bullish CHoCH
    if to.less(from) {
        let prev_high = highest_high(candles, n - 40, n - 20);
        if prev_high.less(close) && !any_close_beyond(candles, n - 20, n - 1, prev_high, true) {
            return Some(Direction::Long);
        }
    }
    // Previous trend bullish → look for bearish CHoCH
    if from.less(to) {
        let prev_low = lowest_low(candles, n - 40, n - 20);
        if close.less(prev_low) && !any_close_beyond(candles, n - 20, n - 1, prev_low, false) {
            return Some(Direction::Short);
        }
    }
    None
}

// ── Liquidity Sweep ───────────────────────────────────────────────

/// The sweep that the last candle makes of the 13 candles that end two before
/// it.
pub open spec fn liquidity_sweep(b: Seq<Bar>) -> Option<Direction> {
    let n = b.len() as int;
    if n < 15 {
        None
    } else {
        let last = b[n - 1];
        let key_high = highest(b, n - 15, n - 2);
        let key_low = lowest(b, n - 15, n - 2);
        if last.high > key_high && last.close < key_high {
            Some(Direction::Short)
        } else if last.low < key_low && last.close > key_low {
            Some(Direction::Long)
        } else {
            None
        }
    }
}

/// A wick through a key level followed by a close back inside.  Indicates
/// stop-loss hunting by institutional players, usually followed by a sharp
/// reversal.
pub fn detect_liq_sweep(candles: &[Candle]) -> (r: Option<Direction>)
    ensures
        r == liquidity_sweep(bars(candles@)),
{
    let n = candles.len();
    if n < 15 {
        return None;
    }
    let last = &candles[n - 1];
    assert(bars(candles@)[n - 1] == last@);
    let key_high = highest_high(candles, n - 15, n - 2);
    let key_low = lowest_low(candles, n - 15, n - 2);
    // Wick above key high, close back below → bearish sweep of buy-stops
    if key_high.less(last.high.0) && last.close.0.less(key_high) {
        return Some(Direction::Short);
    }
    // Wick below key low, close back above → bullish sweep of sell-stops
    if last.low.0.less(key_low) && key_low.less(last.close.0) {
        return Some(Direction::Long);
    }
    None
}

// ── Composite SMC score ───────────────────────────────────────────

#[derive(Debug)]
pub struct SmcContext {
    /// 0 to 1.
    pub score: Decimal,
    pub reasons: Vec<String>,
    pub order_blocks: Vec<OrderBlock>,
    pub fvgs: Vec<FairValueGap>,
    pub bos: Option<Direction>,
    pub choch: Option<Direction>,
    pub liq_sweep: Option<Direction>,
}

/// What a context stands for.
pub struct Context {
    pub score: int,
    pub reasons: Seq<Seq<char>>,
    pub order_blocks: Seq<Block>,
    pub fvgs: Seq<Gap>,
    pub bos: Option<Direction>,
    pub choch: Option<Direction>,
    pub liq_sweep: Option<Direction>,
}

impl View for SmcContext {
    type V = Context;

    open spec fn view(&self) -> Context {
        Context {
            score: self.score@,
            reasons: texts(self.reasons@),
            order_blocks: blocks(self.order_blocks@),
            fvgs: gaps(self.fvgs@),
            bos: self.bos,
            choch: self.choch,
            liq_sweep: self.liq_sweep,
        }
    }
}

/// The context in which nothing was found.
pub open spec fn empty_context() -> Context {
    Context {
        score: 0,
        reasons: seq![],
        order_blocks: seq![],
        fvgs: seq![],
        bos: None,
        choch: None,
        liq_sweep: None,
    }
}

impl Default for SmcContext {
    fn default() -> (r: SmcContext)
        ensures
            r@ == empty_context(),
    {
        let r = SmcContext {
            score: Decimal::zero(),
            reasons: Vec::new(),
            order_blocks: Vec::new(),
            fvgs: Vec::new(),
            bos: None,
            choch: None,
            liq_sweep: None,
        };
        assert(texts(r.reasons@) =~= seq![]);
        assert(blocks(r.order_blocks@) =~= seq![]);
        assert(gaps(r.fvgs@) =~= seq![]);
        r
    }
}

/// Those of the first `n` blocks that hold `price` within 2.5 %.
pub open spec fn near_blocks(s: Seq<Block>, price: int, n: int) -> Option<Seq<Block>>
    decreases n,
{
    if n <= 0 {
        Some(seq![])
    } else {
        match (near_blocks(s, price, n - 1), s[n - 1].contains(price, dec(25, 1))) {
            (Some(k), Some(inside)) => Some(
                if inside {
                    k.push(s[n - 1])
                } else {
                    k
                },
            ),
            _ => None,
        }
    }
}

/// Those of the first `n` gaps that hold `price`.
pub open spec fn holding_gaps(s: Seq<Gap>, price: int, n: int) -> Seq<Gap>
    decreases n,
{
    if n <= 0 {
        seq![]
    } else if s[n - 1].contains(price) {
        holding_gaps(s, price, n - 1).push(s[n - 1])
    } else {
        holding_gaps(s, price, n - 1)
    }
}

pub open spec fn block_reason(b: Block) -> Seq<char> {
    b.dir.name() + " Order Block $"@ + cut(b.low, 6) + "–$"@ + cut(b.high, 6) + " (strength "@
        + fixed(b.strength, 0) + "%)"@
}

pub open spec fn gap_reason(g: Gap) -> Seq<char> {
    g.dir.name() + " FVG $"@ + cut(g.low, 6) + "–$"@ + cut(g.high, 6)
}

/// The reason that a detected direction gives.
pub open spec fn event_reason(d: Option<Direction>, event: Seq<char>) -> Seq<Seq<char>> {
    match d {
        Some(x) => seq![x.name() + event],
        None => seq![],
    }
}

/// What a detected direction adds to the score, in hundredths.
pub open spec fn event_points(d: Option<Direction>, points: int) -> int {
    match d {
        Some(_) => points,
        None => 0,
    }
}

/// What the detectors find in a row of candles, weighed at `price`.
pub open spec fn context(b: Seq<Bar>, price: int) -> Option<Context> {
    if b.len() < 40 {
        Some(empty_context())
    } else {
        match order_blocks(b) {
            None => None,
            Some(obs) => match near_blocks(obs, price, obs.len() as int) {
                None => None,
                Some(near) => {
                    let fvgs = fair_value_gaps(b);
                    let inside = holding_gaps(fvgs, price, fvgs.len() as int);
                    let bos = structure_break(b);
                    let choch = character_change(b);
                    let sweep = liquidity_sweep(b);
                    let points = 25 * near.len() + 20 * inside.len() + event_points(bos, 20)
                        + event_points(choch, 25) + event_points(sweep, 30);
                    Some(
                        Context {
                            score: dec(min_of(points, 100), 2),
                            reasons: near.map_values(|x: Block| block_reason(x))
                                + inside.map_values(|x: Gap| gap_reason(x)) + event_reason(
                                bos,
                                " Break of Structure"@,
                            ) + event_reason(choch, " Change of Character"@) + event_reason(
                                sweep,
                                " Liquidity Sweep"@,
                            ),
                            order_blocks: obs,
                            fvgs,
                            bos,
                            choch,
                            liq_sweep: sweep,
                        },
                    )
                },
            },
        }
    }
}

proof fn lemma_near_fail(s: Seq<Block>, price: int, i: int, j: int)
    requires
        i <= j,
        near_blocks(s, price, i) is None,
    ensures
        near_blocks(s, price, j) is None,
    decreases j - i,
{
    if i < j {
        lemma_near_fail(s, price, i, j - 1);
    }
}

fn block_reason_text(b: &OrderBlock) -> (r: String)
    ensures
        r@ == block_reason(b@),
{
    let mut r = b.dir.label().to_owned();
    r.append(" Order Block $");
    r.append(b.low.to_string().as_str());
    r.append("–$");
    r.append(b.high.to_string().as_str());
    r.append(" (strength ");
    r.append(fixed_text(b.strength, 0).as_str());
    r.append("%)");
    r
}

fn gap_reason_text(g: &FairValueGap) -> (r: String)
    ensures
        r@ == gap_reason(g@),
{
    let mut r = g.dir.label().to_owned();
    r.append(" FVG $");
    r.append(g.low.to_string().as_str());
    r.append("–$");
    r.append(g.high.to_string().as_str());
    r
}

/// Adds the reason that a detected direction gives, and returns its points.
fn add_event(reasons: &mut Vec<String>, d: Option<Direction>, event: &str, points: u128) -> (r:
    u128)
    ensures
        texts(final(reasons)@) == texts(old(reasons)@) + event_reason(d, event@),
        r == event_points(d, points as int),
{
    let ghost before = reasons@;
    match d {
        Some(x) => {
            let mut s = x.label().to_owned();
            s.append(event);
            reasons.push(s);
            assert(texts(reasons@) =~= texts(before) + event_reason(d, event@));
            points
        },
        None => {
            assert(texts(reasons@) =~= texts(before) + event_reason(d, event@));
            0
        },
    }
}

/// Counts the blocks that hold `price` within 2.5 %, and lists their reasons.
fn weigh_blocks(obs: &Vec<OrderBlock>, price: Price, reasons: &mut Vec<String>) -> (r: Option<
    usize,
>)
    ensures
        match near_blocks(blocks(obs@), price@, obs@.len() as int) {
            Some(near) => {
                &&& r is Some
                &&& r->0 == near.len()
                &&& texts(final(reasons)@) == texts(old(reasons)@) + near.map_values(
                    |x: Block| block_reason(x),
                )
            },
            None => r is None,
        },
{
    let ghost all = blocks(obs@);
    let ghost before = texts(reasons@);
    let mut count: usize = 0;
    let mut i: usize = 0;
    assert(texts(reasons@) =~= before + Seq::<Block>::empty().map_values(
        |x: Block| block_reason(x),
    ));
    while i < obs.len()
        invariant
            i <= obs@.len(),
            count <= i,
            all == blocks(obs@),
            near_blocks(all, price@, i as int) is Some,
            near_blocks(all, price@, i as int)->0.len() == count,
            texts(reasons@) == before + near_blocks(all, price@, i as int)->0.map_values(
                |x: Block| block_reason(x),
            ),
        decreases obs@.len() - i,
    {
        let ob = &obs[i];
        assert(all[i as int] == ob@);
        let ghost near = near_blocks(all, price@, i as int)->0;
        match ob.contains(price, Decimal::new(25, 1)) {
            None => {
                proof {
                    lemma_near_fail(all, price@, i + 1, all.len() as int);
                }
                return None;
            },
            Some(inside) => if inside {
                let ghost mid = reasons@;
                let s = block_reason_text(ob);
                reasons.push(s);
                count = count + 1;
                assert(texts(reasons@) =~= texts(mid).push(block_reason(ob@)));
                assert(near.push(ob@).map_values(|x: Block| block_reason(x)) =~= near.map_values(
                    |x: Block| block_reason(x),
                ).push(block_reason(ob@)));
            },
        }
        i = i + 1;
    }
    Some(count)
}

/// Counts the gaps that hold `price`, and lists their reasons.
fn weigh_gaps(fvgs: &Vec<FairValueGap>, price: Price, reasons: &mut Vec<String>) -> (r: usize)
    ensures
        r == holding_gaps(gaps(fvgs@), price@, fvgs@.len() as int).len(),
        texts(final(reasons)@) == texts(old(reasons)@) + holding_gaps(
            gaps(fvgs@),
            price@,
            fvgs@.len() as int,
        ).map_values(|x: Gap| gap_reason(x)),
{
    let ghost all = gaps(fvgs@);
    let ghost before = texts(reasons@);
    let mut count: usize = 0;
    let mut i: usize = 0;
    assert(texts(reasons@) =~= before + Seq::<Gap>::empty().map_values(|x: Gap| gap_reason(x)));
    while i < fvgs.len()
        invariant
            i <= fvgs@.len(),
            count <= i,
            all == gaps(fvgs@),
            holding_gaps(all, price@, i as int).len() == count,
            texts(reasons@) == before + holding_gaps(all, price@, i as int).map_values(
                |x: Gap| gap_reason(x),
            ),
        decreases fvgs@.len() - i,
    {
        let g = &fvgs[i];
        assert(all[i as int] == g@);
        let ghost inside = holding_gaps(all, price@, i as int);
        if g.contains(price) {
            let ghost mid = reasons@;
            let s = gap_reason_text(g);
            reasons.push(s);
            count = count + 1;
            assert(texts(reasons@) =~= texts(mid).push(gap_reason(g@)));
            assert(inside.push(g@).map_values(|x: Gap| gap_reason(x)) =~= inside.map_values(
                |x: Gap| gap_reason(x),
            ).push(gap_reason(g@)));
        }
        i = i + 1;
    }
    count
}

proof fn lemma_score_range(hundredths: int)
    requires
        0 <= hundredths <= 100,
    ensures
        0 <= dec(hundredths, 2) <= dec(1, 0),
{
    lemma_dec_monotone(0, hundredths, 2);
    lemma_dec_monotone(hundredths, 100, 2);
    assert(pow10(2) == 100) by {
        reveal_with_fuel(pow10, 3);
    }
    lemma_dec_zeros(1, 0, 2);
}

/// The score of a context is within 0 and 1.
pub proof fn context_score_range(b: Seq<Bar>, price: int)
    ensures
        context(b, price) matches Some(c) ==> 0 <= c.score <= dec(1, 0),
{
    lemma_score_range(0);
    if b.len() >= 40 {
        if let Some(c) = context(b, price) {
            let near = near_blocks(c.order_blocks, price, c.order_blocks.len() as int)->0;
            let inside = holding_gaps(c.fvgs, price, c.fvgs.len() as int);
            let points = 25 * near.len() + 20 * inside.len() + event_points(c.bos, 20)
                + event_points(c.choch, 25) + event_points(c.liq_sweep, 30);
            lemma_score_range(min_of(points, 100));
        }
    }
}

/// Runs all SMC detectors and returns a composite context.  `None` where a
/// step leaves the decimal range.
pub fn analyse(candles: &[Candle], price: Price) -> (r: Option<SmcContext>)
    ensures
        match r {
            Some(ctx) => context(bars(candles@), price@) == Some(ctx@),
            None => context(bars(candles@), price@) is None,
        },
{
    if candles.len() < 40 {
        return Some(SmcContext::default());
    }
    let order_blocks = match find_order_blocks(candles) {
        Some(v) => v,
        None => {
            return None;
        },
    };
    let fvgs = find_fvgs(candles);
    let bos = detect_bos(candles);
    let choch = detect_choch(candles);
    let liq_sweep = detect_liq_sweep(candles);
    let mut reasons: Vec<String> = Vec::new();
    assert(texts(reasons@) =~= seq![]);
    let near = match weigh_blocks(&order_blocks, price, &mut reasons) {
        Some(k) => k,
        None => {
            return None;
        },
    };
    assert(texts(reasons@) =~= near_blocks(
        blocks(order_blocks@),
        price@,
        order_blocks@.len() as int,
    )->0.map_values(|x: Block| block_reason(x)));
    let inside = weigh_gaps(&fvgs, price, &mut reasons);
    let mut points: u128 = 25 * (near as u128) + 20 * (inside as u128);
    points = points + add_event(&mut reasons, bos, " Break of Structure", 20);
    points = points + add_event(&mut reasons, choch, " Change of Character", 25);
    points = points + add_event(&mut reasons, liq_sweep, " Liquidity Sweep", 30);
    let hundredths: i64 = if points > 100 {
        100
    } else {
        points as i64
    };
    let score = Decimal::new(hundredths, 2);
    Some(SmcContext { score, reasons, order_blocks, fvgs, bos, choch, liq_sweep })
}

} // verus!
