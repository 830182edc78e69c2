//! When trades close, what they bring, and what the books make of them, told by
//! the prices and the rows alone.

use vstd::prelude::*;
use vstd::string::*;

use crate::decimal::{
    dec, difference, exact_results_stand, lemma_dec_monotone, lemma_pow10_28, magnitude,
    nearest_is_exact, nearest_is_odd, nearest_is_representable, nearest_is_there,
    nearest_keeps_bounds, neutral_elements, o_sum, one, part_is_bounded, pow10, product, quotient,
    representable, rounding_is_close, rounding_stays_within, share, shares_are_there,
};
use crate::learning::{
    closings, opened, ordinary_trades_have_a_result, pnl, still_open, LearningEngine, Settled,
    Trade,
};
use crate::store::{
    drawdown, equity, figures, kelly, key_pnl, key_total, key_wins, keys, lemma_drawdown_sign,
    max_drawdown, peak_equity, sized_kelly, stats_cover_the_rows, stats_of, tally, total_loss,
    total_win, Balances, Closed, Keyed,
};
use crate::sums::{adds_exactly, sum_of, sum_of_naturals, sum_of_one_more, sum_stays_exact};
use crate::types::{Direction, Figures, Outcome, Signal};

verus! {

// ── When a trade closes ───────────────────────────────────────────

/// A look at the prices closes an open trade at its target where the price of
/// its symbol has reached it, else at its stop where the price has reached
/// that, else at the price where the trade is 24 hours old.
pub proof fn prices_close_trades(t: Trade, prices: Map<Seq<char>, int>, now: int)
    requires
        t.outcome == Outcome::Open,
        prices.contains_key(t.idea.symbol),
    ensures
        ({
            let price = prices[t.idea.symbol];
            let tp = t.idea.take_profit;
            let sl = t.idea.stop_loss;
            let aged = now - t.created_at >= 86_400_000;
            let exit = t.after(prices, now).exit_price;
            let shut = t.after(prices, now).outcome != Outcome::Open;
            &&& shut ==> match t.idea.direction {
                Direction::Long => {
                    &&& price >= tp ==> exit == Some(tp)
                    &&& price < tp && price <= sl ==> exit == Some(sl)
                    &&& sl < price < tp ==> aged && exit == Some(price)
                },
                Direction::Short => {
                    &&& price <= tp ==> exit == Some(tp)
                    &&& price > tp && price >= sl ==> exit == Some(sl)
                    &&& tp < price < sl ==> aged && exit == Some(price)
                },
            }
        }),
        ({
            let price = prices[t.idea.symbol];
            t.due(price, now) is None <==> now - t.created_at < 86_400_000 && match t.idea.direction {
                Direction::Long => t.idea.stop_loss < price < t.idea.take_profit,
                Direction::Short => t.idea.take_profit < price < t.idea.stop_loss,
            }
        }),
{
}

/// An open trade of ordinary numbers stays open only between its stop and its
/// target, and only for 24 hours.
pub proof fn ordinary_trades_close(t: Trade, prices: Map<Seq<char>, int>, now: int)
    requires
        t.outcome == Outcome::Open,
        prices.contains_key(t.idea.symbol),
        dec(1, 8) <= t.idea.entry <= dec(1000000000000, 0),
        0 <= t.idea.take_profit <= dec(1000000000000, 0),
        0 <= t.idea.stop_loss <= dec(1000000000000, 0),
        0 <= prices[t.idea.symbol] <= dec(1000000000000, 0),
        0 <= t.idea.size_usd <= dec(100000000, 0),
    ensures
        ({
            let price = prices[t.idea.symbol];
            let between = match t.idea.direction {
                Direction::Long => t.idea.stop_loss < price < t.idea.take_profit,
                Direction::Short => t.idea.take_profit < price < t.idea.stop_loss,
            };
            let a = t.after(prices, now);
            &&& a.outcome == Outcome::Open <==> between && now - t.created_at < 86_400_000
            &&& t.idea.direction == Direction::Long && price <= t.idea.stop_loss && price
                < t.idea.take_profit ==> a.exit_price == Some(t.idea.stop_loss)
            &&& t.idea.direction == Direction::Short && price >= t.idea.stop_loss && price
                > t.idea.take_profit ==> a.exit_price == Some(t.idea.stop_loss)
            &&& t.idea.direction == Direction::Long && price >= t.idea.take_profit
                ==> a.exit_price == Some(t.idea.take_profit)
            &&& t.idea.direction == Direction::Short && price <= t.idea.take_profit
                ==> a.exit_price == Some(t.idea.take_profit)
            &&& a.outcome != Outcome::Open ==> {
                &&& a.pnl_usd == pnl(
                    t.idea.direction,
                    t.idea.entry,
                    a.exit_price->0,
                    t.idea.size_usd,
                )
                &&& a.outcome == Outcome::Win <==> a.pnl_usd->0 >= 0
                &&& a.outcome == Outcome::Loss <==> a.pnl_usd->0 < 0
            }
        }),
{
    let price = prices[t.idea.symbol];
    let size = t.idea.size_usd;
    ordinary_trades_have_a_result(t.idea.direction, t.idea.entry, t.idea.take_profit, size);
    ordinary_trades_have_a_result(t.idea.direction, t.idea.entry, t.idea.stop_loss, size);
    ordinary_trades_have_a_result(t.idea.direction, t.idea.entry, price, size);
    prices_close_trades(t, prices, now);
}

/// A trade that is not open, and one whose symbol has no price, stay as they
/// are.
pub proof fn other_trades_stay(t: Trade, prices: Map<Seq<char>, int>, now: int)
    requires
        t.outcome != Outcome::Open || !prices.contains_key(t.idea.symbol),
    ensures
        t.after(prices, now) == t,
{
}

/// One more trade adds its closing to the list if the look at the prices
/// closes it, with its place, its outcome, its exit and its result, and
/// changes nothing of the closings before.
pub proof fn a_trade_adds_its_closing(
    s: Seq<Trade>,
    t: Trade,
    prices: Map<Seq<char>, int>,
    now: int,
)
    ensures
        ({
            let n = s.len() as int;
            let before = closings(s, prices, now, n);
            let after = closings(s.push(t), prices, now, n + 1);
            let a = t.after(prices, now);
            &&& t.outcome == Outcome::Open && a.outcome != Outcome::Open ==> after == before.push(
                Settled {
                    index: n,
                    outcome: a.outcome,
                    exit: a.exit_price->0,
                    pnl: a.pnl_usd->0,
                },
            )
            &&& t.outcome != Outcome::Open || a.outcome == Outcome::Open ==> after == before
        }),
        closings(Seq::empty(), prices, now, 0) == Seq::<Settled>::empty(),
{
    lemma_closings_prefix(s, t, prices, now, s.len() as int);
}

proof fn lemma_closings_prefix(
    s: Seq<Trade>,
    t: Trade,
    prices: Map<Seq<char>, int>,
    now: int,
    n: int,
)
    requires
        n <= s.len(),
    ensures
        closings(s.push(t), prices, now, n) == closings(s, prices, now, n),
    decreases n,
{
    if n > 0 {
        lemma_closings_prefix(s, t, prices, now, n - 1);
        assert(s.push(t)[n - 1] == s[n - 1]);
    }
}

/// The open trades that are counted are the trades that are open.
pub proof fn the_open_are_counted(s: Seq<Trade>)
    ensures
        still_open(s, s.len() as int) == s.filter(|t: Trade| t.outcome == Outcome::Open).len(),
    decreases s.len(),
{
    reveal(Seq::filter);
    if s.len() > 0 {
        let r = s.drop_last();
        the_open_are_counted(r);
        lemma_still_open_prefix(r, s.last(), r.len() as int);
        assert(r.push(s.last()) =~= s);
    }
}

proof fn lemma_still_open_prefix(s: Seq<Trade>, t: Trade, n: int)
    requires
        n <= s.len(),
    ensures
        still_open(s.push(t), n) == still_open(s, n),
    decreases n,
{
    if n > 0 {
        lemma_still_open_prefix(s, t, n - 1);
        assert(s.push(t)[n - 1] == s[n - 1]);
    }
}

/// The alert is due where none was sent and there are enough trades, enough
/// of them won, and enough was won for what was lost; each target may be met
/// just so.
pub proof fn the_alert_needs_every_target(e: LearningEngine, m: Figures)
    ensures
        e.alerts(m) <==> !e.live_notified && e.min_trades <= m.total && e.min_win_rate@
            <= m.win_rate && e.min_profit_factor@ <= m.profit_factor,
{
}

// ── What a trade brings ───────────────────────────────────────────

/// Where the steps are exact, a long trade brings its size times the rise as a
/// share of the entry, and a short one its size times the fall.  So the result
/// times the entry is the size times the move.
pub proof fn results_are_the_share_of_the_move(
    dir: Direction,
    entry: int,
    exit: int,
    size: int,
    share: int,
    p: int,
)
    requires
        entry > 0,
        representable(exit - entry),
        representable(entry - exit),
        representable(share),
        representable(p),
        share * entry == one() * (match dir {
            Direction::Long => exit - entry,
            Direction::Short => entry - exit,
        }),
        p * one() == share * size,
    ensures
        pnl(dir, entry, exit, size) == Some(p),
        p * entry == size * (match dir {
            Direction::Long => exit - entry,
            Direction::Short => entry - exit,
        }),
{
    let moved = match dir {
        Direction::Long => exit - entry,
        Direction::Short => entry - exit,
    };
    nearest_is_exact(moved, 1);
    let e = one();
    assert(moved * e == e * moved) by (nonlinear_arith);
    nearest_is_exact(share, entry);
    nearest_is_exact(p, e);
    assert(p * entry == size * moved) by (nonlinear_arith)
        requires
            share * entry == e * moved,
            p * e == share * size,
            e > 0,
    ;
}

/// What a long trade wins, a short one from the same entry to the same exit
/// loses.
pub proof fn short_trades_mirror_long_ones(entry: int, exit: int, size: int)
    requires
        entry > 0,
    ensures
        match pnl(Direction::Long, entry, exit, size) {
            Some(p) => pnl(Direction::Short, entry, exit, size) == Some(-p),
            None => pnl(Direction::Short, entry, exit, size) is None,
        },
{
    nearest_is_odd(exit - entry, 1);
    if let Some(m) = difference(exit, entry) {
        assert(difference(entry, exit) == Some(-m));
        assert(-m * one() == -(m * one()));
        nearest_is_odd(m * one(), entry);
        if let Some(q) = quotient(m, entry) {
            assert(quotient(-m, entry) == Some(-q));
            assert(-q * size == -(q * size)) by (nonlinear_arith);
            nearest_is_odd(q * size, one());
        }
    }
}

// ── Sums over the rows ────────────────────────────────────────────

/// The rows with an outcome.
pub open spec fn of_outcome(rows: Seq<Closed>, outcome: Seq<char>) -> Seq<Closed> {
    rows.filter(|r: Closed| r.outcome == outcome)
}

/// What each row adds to the wins.
pub open spec fn gains(rows: Seq<Closed>) -> Seq<int> {
    rows.map_values(
        |r: Closed|
            if r.outcome == "WIN"@ {
                r.pnl
            } else {
                0
            },
    )
}

/// What each row adds to the losses: the size of its result.
pub open spec fn costs(rows: Seq<Closed>) -> Seq<int> {
    rows.map_values(
        |r: Closed|
            if r.outcome == "LOSS"@ {
                if r.pnl < 0 {
                    -r.pnl
                } else {
                    r.pnl
                }
            } else {
                0
            },
    )
}

/// What each row adds to the equity.
pub open spec fn results(rows: Seq<Closed>) -> Seq<int> {
    rows.map_values(|r: Closed| r.pnl)
}

proof fn lemma_totals(rows: Seq<Closed>, n: int)
    requires
        0 <= n <= rows.len(),
        adds_exactly(0, gains(rows)),
        adds_exactly(0, costs(rows)),
    ensures
        total_win(rows, n) == Some(sum_of(gains(rows).take(n))),
        total_loss(rows, n) == Some(sum_of(costs(rows).take(n))),
    decreases n,
{
    if n > 0 {
        lemma_totals(rows, n - 1);
        sum_stays_exact(0, gains(rows), n - 1);
        sum_stays_exact(0, costs(rows), n - 1);
        sum_of_one_more(gains(rows), n - 1);
        sum_of_one_more(costs(rows), n - 1);
    }
}

proof fn lemma_counts(rows: Seq<Closed>, outcome: Seq<char>)
    ensures
        tally(rows, outcome, rows.len() as int) == of_outcome(rows, outcome).len(),
    decreases rows.len(),
{
    reveal(Seq::filter);
    if rows.len() > 0 {
        let r = rows.drop_last();
        lemma_counts(r, outcome);
        lemma_tally_prefix(r, rows.last(), outcome, r.len() as int);
        assert(r.push(rows.last()) =~= rows);
    }
}

proof fn lemma_tally_prefix(rows: Seq<Closed>, row: Closed, outcome: Seq<char>, n: int)
    requires
        n <= rows.len(),
    ensures
        tally(rows.push(row), outcome, n) == tally(rows, outcome, n),
    decreases n,
{
    if n > 0 {
        lemma_tally_prefix(rows, row, outcome, n - 1);
        assert(rows.push(row)[n - 1] == rows[n - 1]);
    }
}

/// The wins and the losses are counted over all rows.  Where the sums are exact,
/// what was won is the sum of the results of all winning rows and what was lost
/// the sum of the sizes of the results of all losing ones; the averages times
/// the counts, the profit factor times the losses, and the total all give these
/// sums, the quotients to 27 digits.
pub proof fn wins_and_losses_add_up(
    rows: Seq<Closed>,
    start: int,
    capital: int,
    multiplier: int,
)
    requires
        adds_exactly(0, gains(rows)),
        adds_exactly(0, costs(rows)),
        representable(sum_of(gains(rows)) - sum_of(costs(rows))),
    ensures
        total_win(rows, rows.len() as int) == Some(sum_of(gains(rows))),
        total_loss(rows, rows.len() as int) == Some(sum_of(costs(rows))),
        sum_of(costs(rows)) >= 0,
        figures(rows, start, capital, multiplier) matches Some(f) ==> {
            let won = sum_of(gains(rows));
            let lost = sum_of(costs(rows));
            let digits: int = 1_000_000_000_000_000_000_000_000_000;
            &&& f.wins == of_outcome(rows, "WIN"@).len()
            &&& f.losses == of_outcome(rows, "LOSS"@).len()
            &&& f.total == f.wins + f.losses
            &&& f.total_pnl == won - lost
            &&& f.wins == 0 ==> f.avg_win_usd == 0
            &&& f.losses == 0 ==> f.avg_loss_usd == one()
            &&& f.losses > 0 ==> magnitude(f.avg_loss_usd * f.losses - lost) * digits <= lost
                + f.losses * digits
            &&& f.wins > 0 && won >= 0 ==> magnitude(f.avg_win_usd * f.wins - won) * digits <= won
                + f.wins * digits
            &&& lost == 0 ==> f.profit_factor == won
            &&& lost > 0 && won >= 0 ==> magnitude(f.profit_factor * lost - won * one()) * digits
                <= won * one() + lost * digits
            &&& f.total > 0 ==> magnitude(f.win_rate * f.total - f.wins * one()) * digits <= f.wins
                * one() + f.total * digits
        },
{
    let n = rows.len() as int;
    lemma_totals(rows, n);
    assert(gains(rows).take(n) =~= gains(rows));
    assert(costs(rows).take(n) =~= costs(rows));
    lemma_counts(rows, "WIN"@);
    lemma_counts(rows, "LOSS"@);
    let won = sum_of(gains(rows));
    let lost = sum_of(costs(rows));
    assert(lost >= 0) by {
        sum_of_naturals(costs(rows));
    }
    if let Some(f) = figures(rows, start, capital, multiplier) {
        nearest_is_exact(won - lost, 1);
        if f.losses > 0 {
            lemma_mean_is_close(lost, f.losses);
        }
        if f.wins > 0 && won >= 0 {
            lemma_mean_is_close(won, f.wins);
        }
        if lost > 0 && won >= 0 {
            rounding_is_close(won * one(), lost);
        }
        if f.total > 0 {
            let e = one();
            assert(0 <= (f.wins * e) * e <= (1 * e) * (f.total * e) && f.total * e > 0)
                by (nonlinear_arith)
                requires
                    0 <= f.wins <= f.total,
                    f.total > 0,
                    e > 0,
            ;
            nearest_is_there((f.wins * e) * e, f.total * e, 1);
            lemma_mean_is_close(f.wins * e, f.total);
        }
    }
}

proof fn lemma_mean_is_close(total: int, n: int)
    requires
        total >= 0,
        n > 0,
    ensures
        quotient(total, n * one()) matches Some(r) ==> magnitude(r * n - total)
            * 1_000_000_000_000_000_000_000_000_000 <= total + n
            * 1_000_000_000_000_000_000_000_000_000,
{
    let e = one();
    let d: int = 1_000_000_000_000_000_000_000_000_000;
    assert(n * e > 0);
    rounding_is_close(total * e, n * e);
    if let Some(r) = quotient(total, n * e) {
        let x = r * n - total;
        assert(r * (n * e) - total * e == x * e) by (nonlinear_arith)
            requires
                x == r * n - total,
        ;
        assert(magnitude(x * e) == magnitude(x) * e);
        let m = magnitude(x);
        assert(m * d <= total + n * d) by (nonlinear_arith)
            requires
                (m * e) * d <= total * e + (n * e) * d,
                e > 0,
        ;
    }
}

proof fn lemma_sum_prefix(rows: Seq<Closed>, row: Closed, start: int, n: int)
    requires
        n <= rows.len(),
    ensures
        total_win(rows.push(row), n) == total_win(rows, n),
        total_loss(rows.push(row), n) == total_loss(rows, n),
        equity(rows.push(row), start, n) == equity(rows, start, n),
        peak_equity(rows.push(row), start, n) == peak_equity(rows, start, n),
        max_drawdown(rows.push(row), start, n) == max_drawdown(rows, start, n),
    decreases n + 1,
{
    if n >= 0 {
        lemma_sum_prefix(rows, row, start, n - 1);
        if n > 0 {
            assert(rows.push(row)[n - 1] == rows[n - 1]);
        }
    }
}

/// One more row raises what was lost by the size of its result if it is a loss,
/// what was won by its result if it is a win, and the equity by its result in
/// any case; and it is counted as what it is.
pub proof fn one_more_row_adds_its_result(rows: Seq<Closed>, row: Closed, start: int)
    ensures
        ({
            let n = rows.len() as int;
            let more = rows.push(row);
            let size = if row.pnl < 0 {
                -row.pnl
            } else {
                row.pnl
            };
            &&& total_loss(Seq::empty(), 0) == Some(0int)
            &&& total_win(Seq::empty(), 0) == Some(0int)
            &&& equity(Seq::empty(), start, 0) == Some(start)
            &&& total_loss(more, n + 1) == if row.outcome == "LOSS"@ {
                o_sum(total_loss(rows, n), Some(size))
            } else {
                total_loss(rows, n)
            }
            &&& total_win(more, n + 1) == if row.outcome == "WIN"@ {
                o_sum(total_win(rows, n), Some(row.pnl))
            } else {
                total_win(rows, n)
            }
            &&& equity(more, start, n + 1) == o_sum(equity(rows, start, n), Some(row.pnl))
            &&& tally(more, row.outcome, n + 1) == tally(rows, row.outcome, n) + 1
            &&& forall|other: Seq<char>|
                other != row.outcome ==> #[trigger] tally(more, other, n + 1) == tally(
                    rows,
                    other,
                    n,
                )
        }),
{
    let n = rows.len() as int;
    lemma_sum_prefix(rows, row, start, n);
    assert(rows.push(row)[n] == row);
    lemma_tally_prefix(rows, row, row.outcome, n);
    assert forall|other: Seq<char>| other != row.outcome implies #[trigger] tally(
        rows.push(row),
        other,
        n + 1,
    ) == tally(rows, other, n) by {
        lemma_tally_prefix(rows, row, other, n);
    }
}

/// Where the sums are exact, the equity is the start and all results together.
pub proof fn the_equity_adds_up(rows: Seq<Closed>, start: int, n: int)
    requires
        0 <= n <= rows.len(),
        adds_exactly(start, results(rows)),
    ensures
        equity(rows, start, n) == Some(start + sum_of(results(rows).take(n))),
    decreases n,
{
    if n > 0 {
        the_equity_adds_up(rows, start, n - 1);
        sum_stays_exact(start, results(rows), n - 1);
    } else {
        assert(sum_of(results(rows).take(0)) == 0);
    }
}

// ── Drawdown ──────────────────────────────────────────────────────

proof fn lemma_equities_are_there(rows: Seq<Closed>, start: int, k: int, n: int)
    requires
        0 <= k <= n,
        equity(rows, start, n) is Some,
    ensures
        equity(rows, start, k) is Some,
    decreases n,
{
    if k < n {
        lemma_equities_are_there(rows, start, k, n - 1);
    }
}

proof fn lemma_peak(rows: Seq<Closed>, start: int, n: int) -> (top: int)
    requires
        0 <= n,
        peak_equity(rows, start, n) is Some,
        equity(rows, start, n) is Some,
    ensures
        0 <= top <= n,
        equity(rows, start, top) == peak_equity(rows, start, n),
        forall|k: int|
            0 <= k <= n ==> (#[trigger] equity(rows, start, k))->0 <= peak_equity(
                rows,
                start,
                n,
            )->0,
    decreases n,
{
    if n == 0 {
        0
    } else {
        lemma_equities_are_there(rows, start, n - 1, n);
        let before = lemma_peak(rows, start, n - 1);
        if peak_equity(rows, start, n - 1)->0 < equity(rows, start, n)->0 {
            n
        } else {
            before
        }
    }
}

proof fn lemma_drawdown_there(rows: Seq<Closed>, start: int, j: int, n: int)
    requires
        0 <= j <= n,
        max_drawdown(rows, start, n) is Some,
    ensures
        max_drawdown(rows, start, j) is Some,
        max_drawdown(rows, start, j)->0 <= max_drawdown(rows, start, n)->0,
        drawdown(peak_equity(rows, start, j), equity(rows, start, j)) is Some,
        drawdown(peak_equity(rows, start, j), equity(rows, start, j))->0 <= max_drawdown(
            rows,
            start,
            n,
        )->0,
        peak_equity(rows, start, j) is Some,
        equity(rows, start, j) is Some,
    decreases n,
{
    if j < n {
        lemma_drawdown_there(rows, start, j, n - 1);
    }
}

/// The drawdown is at least every fall: from an equity that is the highest up to
/// some row, down to the equity after that row, as a share of the former.
pub proof fn the_drawdown_covers_every_fall(
    rows: Seq<Closed>,
    start: int,
    n: int,
    i: int,
    j: int,
)
    requires
        0 <= i <= j <= n,
        max_drawdown(rows, start, n) is Some,
        forall|k: int|
            0 <= k <= j ==> (#[trigger] equity(rows, start, k))->0 <= equity(rows, start, i)->0,
        equity(rows, start, i)->0 > 0,
    ensures
        ({
            let top = equity(rows, start, i)->0;
            let low = equity(rows, start, j)->0;
            &&& difference(top, low) is Some && quotient(difference(top, low)->0, top) is Some
            &&& quotient(difference(top, low)->0, top)->0 <= max_drawdown(rows, start, n)->0
        }),
{
    lemma_drawdown_there(rows, start, j, n);
    let at = lemma_peak(rows, start, j);
    lemma_equities_are_there(rows, start, i, j);
    assert(equity(rows, start, at)->0 <= equity(rows, start, i)->0);
    assert(equity(rows, start, i)->0 <= peak_equity(rows, start, j)->0);
}

/// The drawdown is zero or one of these falls.
pub proof fn the_drawdown_is_a_fall(rows: Seq<Closed>, start: int, n: int) -> (fall: (int, int))
    requires
        0 <= n,
        max_drawdown(rows, start, n) is Some,
    ensures
        max_drawdown(rows, start, n)->0 == 0 || {
            let top = equity(rows, start, fall.0)->0;
            let low = equity(rows, start, fall.1)->0;
            &&& 0 <= fall.0 <= fall.1 <= n
            &&& top > 0
            &&& forall|k: int|
                0 <= k <= fall.1 ==> (#[trigger] equity(rows, start, k))->0 <= top
            &&& difference(top, low) is Some
            &&& max_drawdown(rows, start, n) == quotient(difference(top, low)->0, top)
        },
    decreases n,
{
    lemma_drawdown_there(rows, start, n, n);
    let at = lemma_peak(rows, start, n);
    if n == 0 {
        assert(max_drawdown(rows, start, -1) == Some(0int));
        (at, n)
    } else if max_drawdown(rows, start, n - 1)->0 < drawdown(
        peak_equity(rows, start, n),
        equity(rows, start, n),
    )->0 {
        lemma_drawdown_there(rows, start, n - 1, n);
        lemma_drawdown_sign(rows, start, n - 1);
        (at, n)
    } else {
        lemma_drawdown_there(rows, start, n - 1, n);
        the_drawdown_is_a_fall(rows, start, n - 1)
    }
}

// ── Kelly ─────────────────────────────────────────────────────────

/// Where the steps are exact, full Kelly times the odds is what a bet brings on
/// the average: the win rate times the odds less the rate of losses.
pub proof fn full_kelly_is_the_edge_by_the_odds(p: int, b: int, pb: int, k: int)
    requires
        b != 0,
        representable(pb),
        representable(one() - p),
        representable(pb - (one() - p)),
        representable(k),
        pb * one() == p * b,
        k * b == (pb - (one() - p)) * one(),
    ensures
        kelly(p, b) == Some(k),
{
    exact_results_stand(p, b, pb);
    exact_results_stand(one(), p, one() - p);
    exact_results_stand(pb, one() - p, pb - (one() - p));
    exact_results_stand(pb - (one() - p), b, k);
}

/// The Kelly fraction of the metrics is the multiplier's part of full Kelly for
/// the win rate and the average win by the average loss, but at least 1 % and
/// at most 10 %.
pub proof fn the_fraction_is_part_of_kelly(
    rows: Seq<Closed>,
    start: int,
    capital: int,
    multiplier: int,
)
    ensures
        figures(rows, start, capital, multiplier) matches Some(f) ==> {
            let odds = quotient(f.avg_win_usd, f.avg_loss_usd)->0;
            let part = product(kelly(f.win_rate, odds)->0, multiplier)->0;
            f.avg_loss_usd >= dec(1, 9) && odds >= dec(1, 9) ==> {
                &&& quotient(f.avg_win_usd, f.avg_loss_usd) is Some
                &&& kelly(f.win_rate, odds) is Some
                &&& part <= dec(1, 2) ==> f.kelly_fraction == dec(1, 2)
                &&& dec(1, 2) <= part <= dec(10, 2) ==> f.kelly_fraction == part
                &&& part >= dec(10, 2) ==> f.kelly_fraction == dec(10, 2)
            }
        },
{
    lemma_dec_monotone(1, 10, 2);
    if let Some(f) = figures(rows, start, capital, multiplier) {
        assert(sized_kelly(f.win_rate, f.avg_win_usd, f.avg_loss_usd, multiplier) == Some(
            f.kelly_fraction,
        ));
    }
}

// ── Stats by key ──────────────────────────────────────────────────

/// The rows under a key.
pub open spec fn under(rows: Seq<Keyed>, key: Seq<char>) -> Seq<Keyed> {
    rows.filter(|r: Keyed| r.key == key)
}

/// The winning rows under a key.
pub open spec fn won_under(rows: Seq<Keyed>, key: Seq<char>) -> Seq<Keyed> {
    rows.filter(|r: Keyed| r.key == key && r.outcome == "WIN"@)
}

/// What each row adds to the result of a key.
pub open spec fn results_under(rows: Seq<Keyed>, key: Seq<char>) -> Seq<int> {
    rows.map_values(
        |r: Keyed|
            if r.key == key {
                r.pnl
            } else {
                0
            },
    )
}

proof fn lemma_key_prefix(rows: Seq<Keyed>, row: Keyed, key: Seq<char>, n: int)
    requires
        n <= rows.len(),
    ensures
        key_total(rows.push(row), key, n) == key_total(rows, key, n),
        key_wins(rows.push(row), key, n) == key_wins(rows, key, n),
        key_pnl(rows.push(row), key, n) == key_pnl(rows, key, n),
    decreases n,
{
    if n > 0 {
        lemma_key_prefix(rows, row, key, n - 1);
        assert(rows.push(row)[n - 1] == rows[n - 1]);
    }
}

proof fn lemma_key_counts(rows: Seq<Keyed>, key: Seq<char>)
    ensures
        key_total(rows, key, rows.len() as int) == under(rows, key).len(),
        key_wins(rows, key, rows.len() as int) == won_under(rows, key).len(),
    decreases rows.len(),
{
    reveal(Seq::filter);
    if rows.len() > 0 {
        let r = rows.drop_last();
        lemma_key_counts(r, key);
        lemma_key_prefix(r, rows.last(), key, r.len() as int);
        assert(r.push(rows.last()) =~= rows);
    }
}

proof fn lemma_key_results(rows: Seq<Keyed>, key: Seq<char>, n: int)
    requires
        0 <= n <= rows.len(),
        adds_exactly(0, results_under(rows, key)),
    ensures
        key_pnl(rows, key, n) == Some(sum_of(results_under(rows, key).take(n))),
    decreases n,
{
    if n > 0 {
        lemma_key_results(rows, key, n - 1);
        sum_stays_exact(0, results_under(rows, key), n - 1);
        sum_of_one_more(results_under(rows, key), n - 1);
    }
}

/// One more row is counted under its key, as a win if it is one, and adds its
/// result there; under every other key it changes nothing.
pub proof fn a_row_counts_under_its_key(rows: Seq<Keyed>, row: Keyed, key: Seq<char>)
    ensures
        ({
            let n = rows.len() as int;
            let more = rows.push(row);
            let one = if row.key == key {
                1int
            } else {
                0
            };
            let won = if row.key == key && row.outcome == "WIN"@ {
                1int
            } else {
                0
            };
            &&& key_total(more, key, n + 1) == key_total(rows, key, n) + one
            &&& key_wins(more, key, n + 1) == key_wins(rows, key, n) + won
            &&& key_pnl(more, key, n + 1) == if row.key == key {
                o_sum(key_pnl(rows, key, n), Some(row.pnl))
            } else {
                key_pnl(rows, key, n)
            }
            &&& key_pnl(Seq::empty(), key, 0) == Some(0int)
        }),
{
    lemma_key_prefix(rows, row, key, rows.len() as int);
    assert(rows.push(row)[rows.len() as int] == row);
}

/// A stat counts all rows and all wins under its key, and where the sums are
/// exact its result is the sum of theirs.
pub proof fn stats_add_up(rows: Seq<Keyed>, i: int)
    requires
        stats_of(rows) is Some,
        0 <= i < stats_of(rows)->0.len(),
    ensures
        ({
            let s = stats_of(rows)->0[i];
            &&& s.total == under(rows, s.key).len()
            &&& s.wins == won_under(rows, s.key).len()
            &&& adds_exactly(0, results_under(rows, s.key)) ==> s.total_pnl == sum_of(
                results_under(rows, s.key),
            )
        }),
{
    let s = stats_of(rows)->0[i];
    let n = rows.len() as int;
    lemma_key_counts(rows, s.key);
    if adds_exactly(0, results_under(rows, s.key)) {
        lemma_key_results(rows, s.key, n);
        assert(results_under(rows, s.key).take(n) =~= results_under(rows, s.key));
    }
}

proof fn lemma_keys_prefix(rows: Seq<Keyed>, row: Keyed, n: int)
    requires
        n <= rows.len(),
    ensures
        keys(rows.push(row), n) == keys(rows, n),
    decreases n,
{
    if n > 0 {
        lemma_keys_prefix(rows, row, n - 1);
        assert(rows.push(row)[n - 1] == rows[n - 1]);
    }
}

/// One more row adds its key at the end where no row before has it, and leaves
/// the keys as they are where one has.
pub proof fn a_row_adds_its_key(rows: Seq<Keyed>, row: Keyed)
    ensures
        ({
            let n = rows.len() as int;
            let known = exists|i: int| 0 <= i < n && (#[trigger] rows[i]).key == row.key;
            &&& keys(Seq::empty(), 0) == Seq::<Seq<char>>::empty()
            &&& keys(rows.push(row), n + 1) == if known {
                keys(rows, n)
            } else {
                keys(rows, n).push(row.key)
            }
        }),
{
    let n = rows.len() as int;
    lemma_keys_prefix(rows, row, n);
    assert(rows.push(row)[n] == row);
    stats_cover_the_rows(rows, n);
    if keys(rows, n).contains(row.key) {
        let at = lemma_key_source(rows, n, keys(rows, n).index_of(row.key));
        assert(rows[at].key == row.key);
    }
}

proof fn lemma_key_source(rows: Seq<Keyed>, n: int, k: int) -> (i: int)
    requires
        n <= rows.len(),
        0 <= k < keys(rows, n).len(),
    ensures
        0 <= i < n,
        rows[i].key == keys(rows, n)[k],
    decreases n,
{
    if n > 0 && k < keys(rows, n - 1).len() {
        lemma_key_source(rows, n - 1, k)
    } else {
        n - 1
    }
}

/// A trade is opened for its signal: at its time, open, and without an exit, a
/// result or a close.  So the next look at the prices can close it.
pub proof fn trades_open_as_they_were_signalled(s: Signal)
    ensures
        ({
            let t = opened(s);
            &&& t.id == s.id && t.idea == s.idea() && t.created_at == s.created_at
            &&& t.outcome == Outcome::Open
            &&& t.exit_price is None && t.pnl_usd is None && t.closed_at is None
        }),
{
}

// ── The account ───────────────────────────────────────────────────

/// Where the sums are exact, a trade moves the capital, the total and the day by
/// its result; the peak rises to the capital where that is above it and never
/// falls; and the time of the last reset stays.
pub proof fn trades_move_every_balance(b: Balances, pnl: int)
    requires
        representable(b.capital + pnl),
        representable(b.total_pnl + pnl),
        representable(b.daily_pnl + pnl),
    ensures
        b.booked(pnl) matches Some(a) && {
            &&& a.capital == b.capital + pnl
            &&& a.total_pnl == b.total_pnl + pnl
            &&& a.daily_pnl == b.daily_pnl + pnl
            &&& a.peak >= b.peak && a.peak >= a.capital
            &&& a.peak == b.peak || a.peak == a.capital
            &&& a.last_reset == b.last_reset
        },
{
    nearest_is_exact(b.capital + pnl, 1);
    nearest_is_exact(b.total_pnl + pnl, 1);
    nearest_is_exact(b.daily_pnl + pnl, 1);
}

/// A new day forgets the result of the day and nothing else: a trade booked
/// after it moves the day from zero, and all else as without it.
pub proof fn days_start_at_zero(b: Balances, now: int, pnl: int)
    requires
        representable(pnl),
        b.booked(pnl) is Some,
    ensures
        b.reset(now).daily_pnl == 0 && b.reset(now).last_reset == now,
        b.reset(now).booked(pnl) matches Some(a) && {
            &&& a.daily_pnl == pnl
            &&& a.capital == b.booked(pnl)->0.capital
            &&& a.total_pnl == b.booked(pnl)->0.total_pnl
            &&& a.peak == b.booked(pnl)->0.peak
        },
{
    neutral_elements(pnl);
}

// ── When there are metrics ────────────────────────────────────────

proof fn lemma_sizes()
    ensures
        dec(1, 8) == 100_000_000_000_000_000_000,
        dec(1, 9) == 10_000_000_000_000_000_000,
        dec(1_000_000_000_000, 0) == 1_000_000_000_000 * one(),
        forall|m: int|
            #![trigger dec(m, 0)]
            0 <= m <= 1_000_000_000_000_000_000_000_000 ==> representable(dec(m, 0)) && dec(m, 0)
                == m * one(),
{
    lemma_pow10_28();
    assert(pow10(20) == 100_000_000_000_000_000_000 && pow10(19) == 10_000_000_000_000_000_000) by {
        reveal_with_fuel(pow10, 21);
    }
}

proof fn lemma_mean_is_there(total: int, n: int, most: int)
    requires
        0 <= total <= most,
        representable(most),
        n > 0,
    ensures
        quotient(total, n * one()) matches Some(r) && 0 <= r <= most,
{
    let e = one();
    assert(0 <= total * e <= most * (n * e) && n * e > 0) by (nonlinear_arith)
        requires
            0 <= total <= most,
            n > 0,
            e > 0,
    ;
    rounding_stays_within(total * e, n * e, most);
    nearest_keeps_bounds(total * e, n * e, 0);
}

proof fn lemma_kelly_is_there(p: int, avg_win: int, avg_loss: int, multiplier: int)
    requires
        0 <= p <= one(),
        0 <= avg_win <= dec(1_000_000_000_000, 0),
        0 <= multiplier <= one(),
    ensures
        sized_kelly(p, avg_win, avg_loss, multiplier) is Some,
{
    lemma_pow10_28();
    lemma_sizes();
    let e = one();
    let tiny = dec(1, 9);
    let loss = if avg_loss < tiny {
        tiny
    } else {
        avg_loss
    };
    let most = dec(1_000_000_000_000_000_000_000, 0);
    assert(0 <= avg_win * e <= most * loss) by (nonlinear_arith)
        requires
            0 <= avg_win <= 1_000_000_000_000 * e,
            most == 1_000_000_000_000_000_000_000 * e,
            loss >= 10_000_000_000_000_000_000,
            e == 10_000_000_000_000_000_000_000_000_000,
    ;
    rounding_stays_within(avg_win * e, loss, most);
    nearest_keeps_bounds(avg_win * e, loss, 0);
    nearest_is_representable(avg_win * e, loss);
    let b = quotient(avg_win, loss)->0;
    part_is_bounded(p, b);
    let pb = product(p, b)->0;
    assert(representable(e)) by {
        assert(dec(1, 0) == e);
    }
    rounding_stays_within(e - p, 1, e);
    nearest_keeps_bounds(e - p, 1, 0);
    let q = difference(e, p)->0;
    let more = if b < e {
        e
    } else {
        b
    };
    rounding_stays_within(pb - q, 1, more);
    let edge = difference(pb, q)->0;
    let odds = if b < tiny {
        tiny
    } else {
        b
    };
    let top = dec(1_000_000_001, 0);
    assert(-(top * odds) <= edge * e <= top * odds) by (nonlinear_arith)
        requires
            -(b + e) <= edge <= b + e,
            odds >= b,
            odds >= 10_000_000_000_000_000_000,
            top == 1_000_000_001 * e,
            e == 10_000_000_000_000_000_000_000_000_000,
    ;
    rounding_stays_within(edge * e, odds, top);
    nearest_is_representable(edge * e, odds);
    shares_are_there(quotient(edge, odds)->0, multiplier);
}

proof fn lemma_drawdown_is_there(rows: Seq<Closed>, start: int, n: int)
    requires
        -1 <= n <= rows.len(),
        adds_exactly(start, results(rows)),
        dec(1, 8) <= start,
        forall|i: int|
            0 <= i <= rows.len() ==> -dec(1_000_000_000_000, 0) <= start + sum_of(
                #[trigger] results(rows).take(i),
            ) <= dec(1_000_000_000_000, 0),
    ensures
        max_drawdown(rows, start, n) is Some,
        n >= 0 ==> (peak_equity(rows, start, n) matches Some(p) && start <= p <= dec(
            1_000_000_000_000,
            0,
        )),
    decreases n + 1,
{
    lemma_sizes();
    if n >= 0 {
        lemma_drawdown_is_there(rows, start, n - 1);
        the_equity_adds_up(rows, start, n);
        assert(results(rows).take(0) =~= Seq::<int>::empty());
        assert(sum_of(results(rows).take(0)) == 0);
        let q = start + sum_of(results(rows).take(n));
        let p = peak_equity(rows, start, n)->0;
        let e = one();
        let twice = dec(2_000_000_000_000, 0);
        rounding_stays_within(p - q, 1, twice);
        let fall = difference(p, q)->0;
        let top = dec(200_000_000_000_000_000_000, 0);
        assert(-(top * p) <= fall * e <= top * p) by (nonlinear_arith)
            requires
                -(2_000_000_000_000 * e) <= fall <= 2_000_000_000_000 * e,
                p >= 100_000_000_000_000_000_000,
                top == 200_000_000_000_000_000_000 * e,
                e == 10_000_000_000_000_000_000_000_000_000,
        ;
        rounding_stays_within(fall * e, p, top);
    }
}

/// Ordinary books have metrics: where the sums are exact, what was won and every
/// equity are within a trillion, what was lost is nothing or at least a
/// hundred-millionth, as the start is, and the multiplier is a share.
pub proof fn ordinary_books_have_metrics(
    rows: Seq<Closed>,
    start: int,
    capital: int,
    multiplier: int,
)
    requires
        adds_exactly(0, gains(rows)),
        adds_exactly(0, costs(rows)),
        adds_exactly(start, results(rows)),
        0 <= sum_of(gains(rows)) <= dec(1_000_000_000_000, 0),
        sum_of(costs(rows)) == 0 || dec(1, 8) <= sum_of(costs(rows)) <= dec(1_000_000_000_000, 0),
        dec(1, 8) <= start,
        forall|i: int|
            0 <= i <= rows.len() ==> -dec(1_000_000_000_000, 0) <= start + sum_of(
                #[trigger] results(rows).take(i),
            ) <= dec(1_000_000_000_000, 0),
        0 <= multiplier <= one(),
    ensures
        figures(rows, start, capital, multiplier) is Some,
{
    lemma_sizes();
    let n = rows.len() as int;
    let e = one();
    let w = dec(1_000_000_000_000, 0);
    lemma_totals(rows, n);
    assert(gains(rows).take(n) =~= gains(rows));
    assert(costs(rows).take(n) =~= costs(rows));
    let won = sum_of(gains(rows));
    let lost = sum_of(costs(rows));
    lemma_counts(rows, "WIN"@);
    lemma_counts(rows, "LOSS"@);
    let wins = tally(rows, "WIN"@, n);
    let losses = tally(rows, "LOSS"@, n);
    if wins > 0 {
        lemma_mean_is_there(won, wins, w);
    }
    if losses > 0 {
        lemma_mean_is_there(lost, losses, w);
    }
    if lost > 0 {
        let top = dec(100_000_000_000_000_000_000, 0);
        assert(0 <= won * e <= top * lost) by (nonlinear_arith)
            requires
                0 <= won <= 1_000_000_000_000 * e,
                lost >= 100_000_000_000_000_000_000,
                top == 100_000_000_000_000_000_000 * e,
                e == 10_000_000_000_000_000_000_000_000_000,
        ;
        rounding_stays_within(won * e, lost, top);
    }
    rounding_stays_within(won - lost, 1, w);
    lemma_drawdown_is_there(rows, start, n);
    let rate = share(wins, wins + losses);
    assert(0 <= rate <= e) by {
        if wins + losses > 0 {
            let t = wins + losses;
            assert(0 <= (wins * e) * e <= (1 * e) * (t * e) && t * e > 0) by (nonlinear_arith)
                requires
                    0 <= wins <= t,
                    t > 0,
                    e > 0,
            ;
            nearest_is_there((wins * e) * e, t * e, 1);
            nearest_keeps_bounds((wins * e) * e, t * e, 1);
        }
    }
    let avg_win = if wins > 0 {
        quotient(won, wins * e)->0
    } else {
        0
    };
    let avg_loss = if losses > 0 {
        quotient(lost, losses * e)->0
    } else {
        e
    };
    lemma_kelly_is_there(rate, avg_win, avg_loss, multiplier);
}

/// There are stats wherever the results under every key add up exactly.
pub proof fn exact_results_have_stats(rows: Seq<Keyed>)
    requires
        forall|key: Seq<char>| adds_exactly(0, #[trigger] results_under(rows, key)),
    ensures
        stats_of(rows) is Some,
{
    let n = rows.len() as int;
    let ks = keys(rows, n);
    assert forall|i: int| 0 <= i < ks.len() implies key_pnl(rows, #[trigger] ks[i], n) is Some by {
        assert(adds_exactly(0, results_under(rows, ks[i])));
        lemma_key_results(rows, ks[i], n);
    }
}

} // verus!
