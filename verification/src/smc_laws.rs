//! What the detectors of [`crate::smc`] find, told by the candles alone.

use vstd::prelude::*;

use crate::decimal::{
    dec, difference, lemma_pow10_28, o_difference, o_magnitude, o_product, o_quotient, o_sum, one,
    product, quotient,
};
use crate::smc::{
    block_at, blocks_before, character_change, context, fair_value_gaps, gaps_before, highest,
    highest_is_the_maximum, holding_gaps, liquidity_sweep, lowest, lowest_is_the_minimum,
    near_blocks, order_blocks, structure_break, Block, Gap,
};
use crate::text::{cut, fixed};
use crate::types::{Bar, Direction};

verus! {

// ── Fair value gaps ───────────────────────────────────────────────

proof fn lemma_gap_prefix(b: Seq<Bar>, x: Bar, n: int)
    requires
        n + 2 <= b.len(),
    ensures
        gaps_before(b.push(x), n) == gaps_before(b, n),
    decreases n,
{
    if n > 0 {
        lemma_gap_prefix(b, x, n - 1);
    }
}

/// Fewer than three candles have no gap.  One more candle adds the gap between
/// it and the candle before the last, and no other: from the high of that one up
/// to its low where it lies above, from its high up to the low of that one where
/// it lies below, and none where the two meet.
pub proof fn a_candle_adds_its_gap(b: Seq<Bar>, x: Bar)
    ensures
        b.len() < 3 ==> fair_value_gaps(b) == Seq::<Gap>::empty(),
        b.len() >= 2 ==> {
            let first = b[b.len() - 2];
            let before = fair_value_gaps(b);
            let after = fair_value_gaps(b.push(x));
            &&& first.high < x.low ==> after == before.push(
                Gap { low: first.high, high: x.low, dir: Direction::Long },
            )
            &&& first.high >= x.low && x.high < first.low ==> after == before.push(
                Gap { low: x.high, high: first.low, dir: Direction::Short },
            )
            &&& first.high >= x.low && x.high >= first.low ==> after == before
        },
{
    if b.len() >= 2 {
        let n = b.len() - 2;
        lemma_gap_prefix(b, x, n);
        let c = b.push(x);
        assert(c[n] == b[n]);
        assert(c[n + 2] == x);
        assert(fair_value_gaps(c) == gaps_before(c, n + 1));
    } else {
        assert(fair_value_gaps(b) =~= Seq::<Gap>::empty());
    }
}

proof fn lemma_gap_spans(b: Seq<Bar>, n: int, j: int) -> (i: int)
    requires
        n + 2 <= b.len(),
        0 <= j < gaps_before(b, n).len(),
    ensures
        0 <= i < n,
        spans(b, i, gaps_before(b, n)[j]),
    decreases n,
{
    if n > 0 && j < gaps_before(b, n - 1).len() {
        lemma_gap_spans(b, n - 1, j)
    } else {
        n - 1
    }
}

/// Does a gap span from candle `i` to the one after the next, which do not
/// meet?
pub open spec fn spans(b: Seq<Bar>, i: int, g: Gap) -> bool {
    &&& g.low < g.high
    &&& g.dir == Direction::Long ==> g.low == b[i].high && g.high == b[i + 2].low
    &&& g.dir == Direction::Short ==> g.low == b[i + 2].high && g.high == b[i].low
}

/// Every gap found has its lower edge below its upper one, and spans from one
/// candle to the one after the next.  A price is in it just between its edges.
pub proof fn gaps_span_between_candles(b: Seq<Bar>, j: int, price: int)
    requires
        0 <= j < fair_value_gaps(b).len(),
    ensures
        exists|i: int| 0 <= i < b.len() - 2 && #[trigger] spans(b, i, fair_value_gaps(b)[j]),
        fair_value_gaps(b)[j].low < fair_value_gaps(b)[j].high,
        fair_value_gaps(b)[j].contains(price) <==> fair_value_gaps(b)[j].low <= price
            <= fair_value_gaps(b)[j].high,
{
    let i = lemma_gap_spans(b, b.len() - 2, j);
    assert(spans(b, i, fair_value_gaps(b)[j]));
}

// ── Order blocks ──────────────────────────────────────────────────

/// Is a block what the candle `i` makes: a falling one before a close, among
/// the next four, of at least 1.5 % above its open, from its low up to its
/// open; or a rising one before a close of at least 1.5 % below its open, from
/// its open up to its high?  Its strength is the body in percent of the range.
pub open spec fn made_by(b: Seq<Bar>, i: int, x: Block) -> bool {
    let c = b[i];
    &&& difference(c.high, c.low) matches Some(range) && range != 0
    &&& Some(x.strength) == o_product(
        o_quotient(o_magnitude(difference(c.close, c.open)), difference(c.high, c.low)),
        Some(dec(100, 0)),
    )
    &&& x.dir == Direction::Long ==> {
        &&& c.close < c.open
        &&& x.low == c.low && x.high == c.open
        &&& exists|k: int|
            i < k <= i + 4 && k < b.len() && product(c.open, dec(1015, 3)) is Some && (
            #[trigger] b[k]).close >= product(c.open, dec(1015, 3))->0
    }
    &&& x.dir == Direction::Short ==> {
        &&& c.close > c.open
        &&& x.low == c.open && x.high == c.high
        &&& exists|k: int|
            i < k <= i + 4 && k < b.len() && product(c.open, dec(985, 3)) is Some && (
            #[trigger] b[k]).close <= product(c.open, dec(985, 3))->0
    }
}

proof fn lemma_block_made(b: Seq<Bar>, n: int, j: int) -> (i: int)
    requires
        blocks_before(b, n) is Some,
        n <= b.len(),
        0 <= j < blocks_before(b, n)->0.len(),
    ensures
        1 <= i < n,
        made_by(b, i, blocks_before(b, n)->0[j]),
    decreases n,
{
    if n > 1 && j < blocks_before(b, n - 1)->0.len() {
        lemma_block_made(b, n - 1, j)
    } else {
        n - 1
    }
}

proof fn lemma_made_block(b: Seq<Bar>, n: int, i: int, x: Block)
    requires
        blocks_before(b, n) is Some,
        1 <= i < n <= b.len(),
        made_by(b, i, x),
    ensures
        blocks_before(b, n)->0.contains(x),
    decreases n,
{
    let s = blocks_before(b, n)->0;
    let t = blocks_before(b, n - 1)->0;
    if i < n - 1 {
        lemma_made_block(b, n - 1, i, x);
        let j = t.index_of(x);
        assert(s[j] == x);
    } else {
        assert(block_at(b, n - 1) == Some(Some(x)));
        assert(s[t.len() as int] == x);
    }
}

/// The order blocks are just those that the candles from the second to the
/// fourth last make.
pub proof fn order_blocks_are_made_by_candles(b: Seq<Bar>)
    requires
        order_blocks(b) is Some,
    ensures
        forall|x: Block|
            order_blocks(b)->0.contains(x) <==> b.len() >= 6 && exists|i: int|
                1 <= i < b.len() - 3 && #[trigger] made_by(b, i, x),
        order_blocks(b)->0.len() <= b.len(),
{
    if b.len() >= 6 {
        let s = order_blocks(b)->0;
        lemma_block_count(b, b.len() - 3);
        assert forall|x: Block| s.contains(x) <==> exists|i: int|
            1 <= i < b.len() - 3 && #[trigger] made_by(b, i, x) by {
            if s.contains(x) {
                let i = lemma_block_made(b, b.len() - 3, s.index_of(x));
                assert(made_by(b, i, x));
            }
            if exists|i: int| 1 <= i < b.len() - 3 && #[trigger] made_by(b, i, x) {
                let i = choose|i: int| 1 <= i < b.len() - 3 && #[trigger] made_by(b, i, x);
                lemma_made_block(b, b.len() - 3, i, x);
            }
        }
    }
}

proof fn lemma_block_count(b: Seq<Bar>, n: int)
    ensures
        blocks_before(b, n) matches Some(s) ==> s.len() <= if n <= 1 {
            0
        } else {
            n - 1
        },
    decreases n,
{
    if n > 1 {
        lemma_block_count(b, n - 1);
    }
}

/// A price is at a block with a tolerance in percent just where it is between
/// its low less that part and its high plus that part.  So without a tolerance
/// it is where it is between the two.
pub proof fn blocks_hold_prices_between_their_edges(x: Block, price: int, pct: int)
    ensures
        x.contains(price, pct) matches Some(held) ==> {
            let part = quotient(pct, 100 * one());
            let low = o_product(Some(x.low), o_difference(Some(one()), part));
            let high = o_product(Some(x.high), o_sum(Some(one()), part));
            &&& low matches Some(l) && high matches Some(h) && held == (l <= price <= h)
        },
{
    lemma_pow10_28();
}

// ── Events ────────────────────────────────────────────────────────

/// A break of structure is a close above every high, or below every low, of the
/// 19 candles before the last.
pub proof fn breaks_leave_every_candle_behind(b: Seq<Bar>)
    requires
        forall|i: int| 0 <= i < b.len() ==> (#[trigger] b[i]).low <= b[i].high,
    ensures
        ({
            let n = b.len() as int;
            let above = n >= 20 && forall|i: int|
                n - 20 <= i < n - 1 ==> b[n - 1].close > (#[trigger] b[i]).high;
            let below = n >= 20 && forall|i: int|
                n - 20 <= i < n - 1 ==> b[n - 1].close < (#[trigger] b[i]).low;
            &&& structure_break(b) == Some(Direction::Long) <==> above
            &&& structure_break(b) == Some(Direction::Short) <==> below
        }),
{
    let n = b.len() as int;
    if n >= 20 {
        highest_is_the_maximum(b, n - 20, n - 1);
        lowest_is_the_minimum(b, n - 20, n - 1);
        assert(b[n - 20].low <= b[n - 20].high);
    }
}

/// A change of character is a close above every high of the older 20 of the last
/// 40 candles, which fell from their first open to their last close, where no
/// candle since closed so high; or the reverse.
pub proof fn changes_are_the_first_break_against_the_trend(b: Seq<Bar>)
    ensures
        ({
            let n = b.len() as int;
            let up = n >= 40 && b[n - 21].close < b[n - 40].open && (forall|i: int|
                n - 40 <= i < n - 20 ==> b[n - 1].close > (#[trigger] b[i]).high) && (forall|k: int|
                n - 20 <= k < n - 1 ==> exists|i: int|
                    n - 40 <= i < n - 20 && (#[trigger] b[k]).close <= (#[trigger] b[i]).high);
            let down = n >= 40 && b[n - 21].close > b[n - 40].open && (forall|i: int|
                n - 40 <= i < n - 20 ==> b[n - 1].close < (#[trigger] b[i]).low) && (forall|k: int|
                n - 20 <= k < n - 1 ==> exists|i: int|
                    n - 40 <= i < n - 20 && (#[trigger] b[k]).close >= (#[trigger] b[i]).low);
            &&& character_change(b) == Some(Direction::Long) <==> up
            &&& character_change(b) == Some(Direction::Short) <==> down
        }),
{
    let n = b.len() as int;
    if n >= 40 {
        highest_is_the_maximum(b, n - 40, n - 20);
        lowest_is_the_minimum(b, n - 40, n - 20);
        let t = choose|i: int|
            n - 40 <= i < n - 20 && (#[trigger] b[i]).high == highest(
                b,
                n - 40,
                n - 20,
            );
        let l = choose|i: int|
            n - 40 <= i < n - 20 && (#[trigger] b[i]).low == lowest(b, n - 40, n - 20);
        assert(b[t].high == highest(b, n - 40, n - 20));
        assert(b[l].low == lowest(b, n - 40, n - 20));
    }
}

/// A sweep is a wick beyond every candle from the fifteenth last to the third
/// last, with a close back inside: above their highs for a Short, below their
/// lows for a Long where it is no Short.
pub proof fn sweeps_come_back_inside(b: Seq<Bar>)
    ensures
        ({
            let n = b.len() as int;
            let last = b[n - 1];
            let over = n >= 15 && (forall|i: int|
                n - 15 <= i < n - 2 ==> last.high > (#[trigger] b[i]).high) && (exists|i: int|
                n - 15 <= i < n - 2 && last.close < (#[trigger] b[i]).high);
            let under = n >= 15 && (forall|i: int|
                n - 15 <= i < n - 2 ==> last.low < (#[trigger] b[i]).low) && (exists|i: int|
                n - 15 <= i < n - 2 && last.close > (#[trigger] b[i]).low);
            &&& liquidity_sweep(b) == Some(Direction::Short) <==> over
            &&& liquidity_sweep(b) == Some(Direction::Long) <==> under && !over
        }),
{
    let n = b.len() as int;
    if n >= 15 {
        highest_is_the_maximum(b, n - 15, n - 2);
        lowest_is_the_minimum(b, n - 15, n - 2);
    }
}

// ── The score ─────────────────────────────────────────────────────

proof fn lemma_near_filter(s: Seq<Block>, price: int, n: int)
    requires
        0 <= n <= s.len(),
    ensures
        near_blocks(s, price, n) matches Some(k) ==> k == s.take(n).filter(
            |x: Block| x.contains(price, dec(25, 1)) == Some(true),
        ),
    decreases n,
{
    reveal(Seq::filter);
    if n > 0 {
        lemma_near_filter(s, price, n - 1);
        assert(s.take(n).drop_last() =~= s.take(n - 1));
        assert(s.take(n).last() == s[n - 1]);
    }
}

proof fn lemma_holding_filter(s: Seq<Gap>, price: int, n: int)
    requires
        0 <= n <= s.len(),
    ensures
        holding_gaps(s, price, n) == s.take(n).filter(
            |g: Gap| g.low <= price && price <= g.high,
        ),
    decreases n,
{
    reveal(Seq::filter);
    if n > 0 {
        lemma_holding_filter(s, price, n - 1);
        assert(s.take(n).drop_last() =~= s.take(n - 1));
        assert(s.take(n).last() == s[n - 1]);
    }
}

/// The score is a quarter for each order block within 2.5 % of the price, a
/// fifth for each gap that holds it, a fifth for a break of structure, a quarter
/// for a change of character and three tenths for a sweep, and one at most.  The
/// context holds what each detector finds.
pub proof fn the_score_adds_up(b: Seq<Bar>, price: int)
    requires
        context(b, price) is Some,
    ensures
        ({
            let c = context(b, price)->0;
            let near = c.order_blocks.filter(
                |x: Block| x.contains(price, dec(25, 1)) == Some(true),
            ).len();
            let inside = c.fvgs.filter(|g: Gap| g.low <= price && price <= g.high).len();
            let points: int = 25 * near + 20 * inside + (if c.bos is Some {
                20int
            } else {
                0
            }) + (if c.choch is Some {
                25int
            } else {
                0
            }) + (if c.liq_sweep is Some {
                30int
            } else {
                0
            });
            &&& c.score == dec(
                if points < 100 {
                    points
                } else {
                    100
                },
                2,
            )
            &&& b.len() >= 40 ==> {
                &&& order_blocks(b) == Some(c.order_blocks)
                &&& c.fvgs == fair_value_gaps(b)
                &&& c.bos == structure_break(b)
                &&& c.choch == character_change(b)
                &&& c.liq_sweep == liquidity_sweep(b)
                &&& c.reasons.len() == near + inside + (if c.bos is Some {
                    1int
                } else {
                    0
                }) + (if c.choch is Some {
                    1int
                } else {
                    0
                }) + (if c.liq_sweep is Some {
                    1int
                } else {
                    0
                })
            }
            &&& b.len() < 40 ==> points == 0 && c.reasons.len() == 0
        }),
{
    let c = context(b, price)->0;
    let n = c.order_blocks.len() as int;
    let m = c.fvgs.len() as int;
    lemma_near_filter(c.order_blocks, price, n);
    lemma_holding_filter(c.fvgs, price, m);
    assert(c.order_blocks.take(n) =~= c.order_blocks);
    assert(c.fvgs.take(m) =~= c.fvgs);
    if b.len() < 40 {
        assert(near_blocks(c.order_blocks, price, 0) == Some(Seq::<Block>::empty()));
        assert(holding_gaps(c.fvgs, price, 0) == Seq::<Gap>::empty());
        assert(dec(0, 2) == 0);
    }
}

/// The reasons name each block near the price and each gap that holds it, with
/// their edges from the lower to the upper, and then each event with its
/// direction.
pub proof fn the_reasons_name_what_was_found(b: Seq<Bar>, price: int)
    requires
        b.len() >= 40,
        context(b, price) is Some,
    ensures
        ({
            let c = context(b, price)->0;
            let near = c.order_blocks.filter(
                |x: Block| x.contains(price, dec(25, 1)) == Some(true),
            );
            let inside = c.fvgs.filter(|g: Gap| g.low <= price && price <= g.high);
            let n = near.len() as int;
            let m = inside.len() as int;
            let k = if c.bos is Some {
                1int
            } else {
                0
            };
            let l = if c.choch is Some {
                1int
            } else {
                0
            };
            &&& forall|i: int|
                0 <= i < n ==> #[trigger] c.reasons[i] == near[i].dir.name() + " Order Block $"@
                    + cut(near[i].low, 6) + "–$"@ + cut(near[i].high, 6) + " (strength "@ + fixed(
                    near[i].strength,
                    0,
                ) + "%)"@
            &&& forall|i: int|
                0 <= i < m ==> #[trigger] c.reasons[n + i] == inside[i].dir.name() + " FVG $"@
                    + cut(inside[i].low, 6) + "–$"@ + cut(inside[i].high, 6)
            &&& c.bos matches Some(d) ==> c.reasons[n + m] == d.name() + " Break of Structure"@
            &&& c.choch matches Some(d) ==> c.reasons[n + m + k] == d.name()
                + " Change of Character"@
            &&& c.liq_sweep matches Some(d) ==> c.reasons[n + m + k + l] == d.name()
                + " Liquidity Sweep"@
        }),
{
    let c = context(b, price)->0;
    let n = c.order_blocks.len() as int;
    let m = c.fvgs.len() as int;
    lemma_near_filter(c.order_blocks, price, n);
    lemma_holding_filter(c.fvgs, price, m);
    assert(c.order_blocks.take(n) =~= c.order_blocks);
    assert(c.fvgs.take(m) =~= c.fvgs);
}

} // verus!
