//! Records every signal as a paper trade, evaluates TP / SL hits against live
//! prices, and tells when performance targets are met.

use vstd::prelude::*;
use vstd::string::*;

use crate::config::Config;
use crate::decimal::{
    dec, difference, lemma_pow10_28, nearest, nearest_keeps_bounds, o_product, o_quotient, one,
    pow10, quotient, representable, rounding_stays_below_zero, rounding_stays_within, sign_is_kept,
    try_product, try_quotient, val, Decimal,
};
use crate::exchange::{ExchangeError, PriceMap};
use crate::stamps::now_millis;
use crate::store::DbError;
use crate::types::{Direction, Figures, Idea, Metrics, Outcome, Price, Signal, TradeRecord};

verus! {

// ── Error ─────────────────────────────────────────────────────────

#[derive(Debug)]
pub enum LearnError {
    Exchange(ExchangeError),
    Db(DbError),
}

impl LearnError {
    pub open spec fn text(self) -> Seq<char> {
        match self {
            LearnError::Exchange(e) => "Exchange error: "@ + e@.text(),
            LearnError::Db(e) => "Database error: "@ + e.text(),
        }
    }

    pub fn to_string(&self) -> (r: String)
        ensures
            r@ == self.text(),
    {
        match self {
            LearnError::Exchange(e) => {
                let mut r = "Exchange error: ".to_owned();
                r.append(e.to_string().as_str());
                r
            },
            LearnError::Db(e) => {
                let mut r = "Database error: ".to_owned();
                r.append(e.to_string().as_str());
                r
            },
        }
    }
}

// ── Profit and loss ───────────────────────────────────────────────

/// What a trade brought: the move from entry to exit in its direction, as a
/// share of the entry, times its size.
pub open spec fn pnl(dir: Direction, entry: int, exit: int, size: int) -> Option<int> {
    let moved = match dir {
        Direction::Long => difference(exit, entry),
        Direction::Short => difference(entry, exit),
    };
    o_product(o_quotient(moved, Some(entry)), Some(size))
}

/// What a trade brought.  `None` where the entry is zero or a step leaves the
/// decimal range.
pub fn pnl_usd(dir: Direction, entry: Decimal, exit: Decimal, size: Decimal) -> (r: Option<Decimal>)
    ensures
        val(r) == pnl(dir, entry@, exit@, size@),
{
    let moved = match dir {
        Direction::Long => exit.checked_sub(entry),
        Direction::Short => entry.checked_sub(exit),
    };
    try_product(try_quotient(moved, Some(entry)), Some(size))
}

// ── Trades ────────────────────────────────────────────────────────

/// What a trade record stands for.
pub struct Trade {
    pub id: u128,
    pub idea: Idea,
    pub created_at: int,
    pub outcome: Outcome,
    pub exit_price: Option<int>,
    pub pnl_usd: Option<int>,
    pub closed_at: Option<int>,
}

impl View for TradeRecord {
    type V = Trade;

    open spec fn view(&self) -> Trade {
        Trade {
            id: self.signal.id,
            idea: self.signal.idea(),
            created_at: self.signal.created_at as int,
            outcome: self.outcome,
            exit_price: match self.exit_price {
                Some(p) => Some(p@),
                None => None,
            },
            pnl_usd: val(self.pnl_usd),
            closed_at: match self.closed_at {
                Some(t) => Some(t as int),
                None => None,
            },
        }
    }
}

pub open spec fn trades(s: Seq<TradeRecord>) -> Seq<Trade> {
    s.map_values(|t: TradeRecord| t@)
}

/// A new paper trade.
pub open spec fn opened(s: Signal) -> Trade {
    Trade {
        id: s.id,
        idea: s.idea(),
        created_at: s.created_at as int,
        outcome: Outcome::Open,
        exit_price: None,
        pnl_usd: None,
        closed_at: None,
    }
}

/// Twenty-four hours, in milliseconds.
pub const EXPIRY_MS: i64 = 86_400_000;

impl Trade {
    /// Has the price reached the target?
    pub open spec fn tp_hit(self, price: int) -> bool {
        match self.idea.direction {
            Direction::Long => price >= self.idea.take_profit,
            Direction::Short => price <= self.idea.take_profit,
        }
    }

    /// Has the price reached the stop?
    pub open spec fn sl_hit(self, price: int) -> bool {
        match self.idea.direction {
            Direction::Long => price <= self.idea.stop_loss,
            Direction::Short => price >= self.idea.stop_loss,
        }
    }

    /// The price at which the trade is due to close: the target, the stop, or
    /// after 24 hours the market.
    pub open spec fn due(self, price: int, now: int) -> Option<int> {
        if self.tp_hit(price) {
            Some(self.idea.take_profit)
        } else if self.sl_hit(price) {
            Some(self.idea.stop_loss)
        } else if now - self.created_at >= EXPIRY_MS {
            Some(price)
        } else {
            None
        }
    }

    /// The price at which the trade closes and what it brings, if it closes
    /// at all.
    pub open spec fn closing(self, prices: Map<Seq<char>, int>, now: int) -> Option<(int, int)> {
        if self.outcome != Outcome::Open || !prices.contains_key(self.idea.symbol) {
            None
        } else {
            match self.due(prices[self.idea.symbol], now) {
                None => None,
                Some(exit) => match pnl(
                    self.idea.direction,
                    self.idea.entry,
                    exit,
                    self.idea.size_usd,
                ) {
                    None => None,
                    Some(p) => Some((exit, p)),
                },
            }
        }
    }

    /// The trade after a look at the prices.
    pub open spec fn after(self, prices: Map<Seq<char>, int>, now: int) -> Trade {
        match self.closing(prices, now) {
            None => self,
            Some((exit, p)) => Trade {
                outcome: won(p),
                exit_price: Some(exit),
                pnl_usd: Some(p),
                closed_at: Some(now),
                ..self
            },
        }
    }
}

/// The outcome that a result means.
pub open spec fn won(pnl: int) -> Outcome {
    if pnl >= 0 {
        Outcome::Win
    } else {
        Outcome::Loss
    }
}

/// A trade that was just closed: where it is in the list, and how it went.
#[derive(Debug, Clone, Copy)]
pub struct Closing {
    pub index: usize,
    pub outcome: Outcome,
    pub exit: Decimal,
    pub pnl: Decimal,
}

/// What a closing stands for.
pub struct Settled {
    pub index: int,
    pub outcome: Outcome,
    pub exit: int,
    pub pnl: int,
}

impl View for Closing {
    type V = Settled;

    open spec fn view(&self) -> Settled {
        Settled {
            index: self.index as int,
            outcome: self.outcome,
            exit: self.exit@,
            pnl: self.pnl@,
        }
    }
}

pub open spec fn settlements(s: Seq<Closing>) -> Seq<Settled> {
    s.map_values(|c: Closing| c@)
}

/// The closings among the first `n` trades.
pub open spec fn closings(s: Seq<Trade>, prices: Map<Seq<char>, int>, now: int, n: int) -> Seq<
    Settled,
>
    decreases n,
{
    if n <= 0 {
        seq![]
    } else {
        let before = closings(s, prices, now, n - 1);
        match s[n - 1].closing(prices, now) {
            None => before,
            Some((exit, p)) => before.push(
                Settled { index: n - 1, outcome: won(p), exit, pnl: p },
            ),
        }
    }
}

fn closing_of(t: &TradeRecord, prices: &PriceMap, now: i64) -> (r: Option<(Decimal, Decimal)>)
    ensures
        match r {
            Some((exit, p)) => t@.closing(prices@, now as int) == Some((exit@, p@)),
            None => t@.closing(prices@, now as int) is None,
        },
{
    if t.outcome != Outcome::Open {
        return None;
    }
    let price = match prices.get(&t.signal.symbol) {
        Some(p) => p.0,
        None => {
            return None;
        },
    };
    let tp = t.signal.take_profit.0;
    let sl = t.signal.stop_loss.0;
    let tp_hit = match t.signal.direction {
        Direction::Long => tp.at_most(price),
        Direction::Short => price.at_most(tp),
    };
    let sl_hit = match t.signal.direction {
        Direction::Long => price.at_most(sl),
        Direction::Short => sl.at_most(price),
    };
    let expired = now as i128 - t.signal.created_at as i128 >= EXPIRY_MS as i128;
    if !tp_hit && !sl_hit && !expired {
        return None;
    }
    let exit = if tp_hit {
        tp
    } else if sl_hit {
        sl
    } else {
        price
    };
    match pnl_usd(t.signal.direction, t.signal.entry.0, exit, t.signal.size_usd) {
        Some(p) => Some((exit, p)),
        None => None,
    }
}

// ── Learning Engine ───────────────────────────────────────────────

#[derive(Debug)]
pub struct LearningEngine {
    pub open_trades: Vec<TradeRecord>,
    pub live_notified: bool,
    // The targets
    pub min_trades: usize,
    pub min_win_rate: Decimal,
    pub min_profit_factor: Decimal,
}

impl LearningEngine {
    pub open spec fn same_targets(self, other: LearningEngine) -> bool {
        &&& self.min_trades == other.min_trades
        &&& self.min_win_rate == other.min_win_rate
        &&& self.min_profit_factor == other.min_profit_factor
    }

    /// Do the metrics meet the targets?
    pub open spec fn targets_met(self, m: Figures) -> bool {
        &&& m.total >= self.min_trades
        &&& m.win_rate >= self.min_win_rate@
        &&& m.profit_factor >= self.min_profit_factor@
    }

    /// Is the live-ready alert due?
    pub open spec fn alerts(self, m: Figures) -> bool {
        !self.live_notified && self.targets_met(m)
    }

    pub fn new(config: &Config) -> (r: LearningEngine)
        ensures
            r.open_trades@.len() == 0,
            !r.live_notified,
            r.min_trades == config.min_trades_for_live,
            r.min_win_rate == config.live_ready_win_rate,
            r.min_profit_factor == config.live_ready_profit_factor,
    {
        LearningEngine {
            open_trades: Vec::new(),
            live_notified: false,
            min_trades: config.min_trades_for_live,
            min_win_rate: config.live_ready_win_rate,
            min_profit_factor: config.live_ready_profit_factor,
        }
    }

    /// Adds a signal to the trades, where `saved` says that it was persisted.
    pub fn record(&mut self, signal: Signal, saved: Result<(), DbError>) -> (r: Result<
        (),
        LearnError,
    >)
        ensures
            match saved {
                Ok(()) => {
                    &&& r is Ok
                    &&& trades(final(self).open_trades@) == trades(old(self).open_trades@).push(
                        opened(signal),
                    )
                    &&& final(self).live_notified == old(self).live_notified
                    &&& final(self).same_targets(*old(self))
                },
                Err(e) => r == Err::<(), LearnError>(LearnError::Db(e)) && *final(self) == *old(
                    self,
                ),
            },
    {
        match saved {
            Err(e) => Err(LearnError::Db(e)),
            Ok(()) => {
                let ghost before = self.open_trades@;
                self.open_trades.push(
                    TradeRecord {
                        signal,
                        outcome: Outcome::Open,
                        exit_price: None,
                        pnl_usd: None,
                        closed_at: None,
                    },
                );
                assert(trades(self.open_trades@) =~= trades(before).push(opened(signal)));
                Ok(())
            },
        }
    }

    /// Checks every open trade against `prices` at the time `now`; closes
    /// those that hit TP, SL, or the 24-hour expiry, and returns them.  A
    /// trade whose result is no decimal stays open.
    pub fn evaluate_at(&mut self, prices: &PriceMap, now: i64) -> (r: Vec<Closing>)
        ensures
            trades(final(self).open_trades@) == trades(old(self).open_trades@).map_values(
                |t: Trade| t.after(prices@, now as int),
            ),
            settlements(r@) == closings(
                trades(old(self).open_trades@),
                prices@,
                now as int,
                old(self).open_trades@.len() as int,
            ),
            final(self).live_notified == old(self).live_notified,
            final(self).same_targets(*old(self)),
    {
        let ghost start = *self;
        let ghost all = trades(self.open_trades@);
        let mut out: Vec<Closing> = Vec::new();
        let n = self.open_trades.len();
        let mut i: usize = 0;
        assert(settlements(out@) =~= seq![]);
        while i < n
            invariant
                i <= n == self.open_trades@.len() == all.len(),
                forall|j: int|
                    0 <= j < i ==> (#[trigger] self.open_trades@[j])@ == all[j].after(
                        prices@,
                        now as int,
                    ),
                forall|j: int| i <= j < n ==> (#[trigger] self.open_trades@[j])@ == all[j],
                settlements(out@) == closings(all, prices@, now as int, i as int),
                self.live_notified == start.live_notified,
                self.same_targets(start),
            decreases n - i,
        {
            match closing_of(&self.open_trades[i], prices, now) {
                None => {},
                Some((exit, p)) => {
                    let outcome = if Decimal::zero().at_most(p) {
                        Outcome::Win
                    } else {
                        Outcome::Loss
                    };
                    let t = &mut self.open_trades[i];
                    t.outcome = outcome;
                    t.exit_price = Some(Price(exit));
                    t.pnl_usd = Some(p);
                    t.closed_at = Some(now);
                    let ghost before = out@;
                    let c = Closing { index: i, outcome, exit, pnl: p };
                    out.push(c);
                    assert(settlements(out@) =~= settlements(before).push(c@));
                },
            }
            i = i + 1;
        }
        assert(trades(self.open_trades@) =~= all.map_values(
            |t: Trade| t.after(prices@, now as int),
        ));
        out
    }

    /// Checks every open trade against `prices`, now.
    pub fn evaluate_open(&mut self, prices: &PriceMap) -> (r: Vec<Closing>)
        ensures
            exists|now: i64|
                now >= 0 && trades(final(self).open_trades@) == #[trigger] looked_at(
                    trades(old(self).open_trades@),
                    prices@,
                    now as int,
                ) && settlements(r@) == closings(
                    trades(old(self).open_trades@),
                    prices@,
                    now as int,
                    old(self).open_trades@.len() as int,
                ),
            final(self).live_notified == old(self).live_notified,
            final(self).same_targets(*old(self)),
    {
        let now = now_millis();
        let r = self.evaluate_at(prices, now);
        assert(trades(self.open_trades@) == looked_at(
            trades(old(self).open_trades@),
            prices@,
            now as int,
        ));
        r
    }

    /// Says whether the live-ready alert is to be sent: once, when the targets
    /// are met.
    pub fn check_live_ready(&mut self, m: &Metrics) -> (r: bool)
        ensures
            r == old(self).alerts(m@),
            final(self).live_notified == (old(self).live_notified || r),
            final(self).open_trades == old(self).open_trades,
            final(self).same_targets(*old(self)),
    {
        if self.live_notified {
            return false;
        }
        if m.total >= self.min_trades && self.min_win_rate.at_most(m.win_rate)
            && self.min_profit_factor.at_most(m.profit_factor) {
            self.live_notified = true;
            return true;
        }
        false
    }

    pub fn open_count(&self) -> (r: usize)
        ensures
            r == still_open(trades(self.open_trades@), self.open_trades@.len() as int),
    {
        let ghost all = trades(self.open_trades@);
        let mut count: usize = 0;
        let mut i: usize = 0;
        while i < self.open_trades.len()
            invariant
                i <= self.open_trades@.len(),
                all == trades(self.open_trades@),
                count <= i,
                count == still_open(all, i as int),
            decreases self.open_trades@.len() - i,
        {
            assert(all[i as int] == self.open_trades@[i as int]@);
            if self.open_trades[i].outcome == Outcome::Open {
                count = count + 1;
            }
            i = i + 1;
        }
        count
    }
}

/// The trades after a look at the prices.
pub open spec fn looked_at(s: Seq<Trade>, prices: Map<Seq<char>, int>, now: int) -> Seq<Trade> {
    s.map_values(|t: Trade| t.after(prices, now))
}

/// How many of the first `n` trades are open.
pub open spec fn still_open(s: Seq<Trade>, n: int) -> int
    decreases n,
{
    if n <= 0 {
        0
    } else if s[n - 1].outcome == Outcome::Open {
        still_open(s, n - 1) + 1
    } else {
        still_open(s, n - 1)
    }
}

// ── Laws ──────────────────────────────────────────────────────────

/// A trade that is closed stays as it is, whatever the prices do later.
pub proof fn closed_trades_stay_closed(
    t: Trade,
    prices: Map<Seq<char>, int>,
    now: int,
    later_prices: Map<Seq<char>, int>,
    later: int,
)
    ensures
        t.outcome != Outcome::Open ==> t.after(prices, now) == t,
        t.after(prices, now).outcome != Outcome::Open ==> t.after(prices, now).after(
            later_prices,
            later,
        ) == t.after(prices, now),
{
}

/// A trade closes as a win if and only if it brought no loss, and then it has
/// its exit, its result and its time.
pub proof fn closed_trades_are_complete(t: Trade, prices: Map<Seq<char>, int>, now: int)
    requires
        t.outcome == Outcome::Open,
    ensures
        ({
            let a = t.after(prices, now);
            &&& a.outcome != Outcome::Open ==> {
                &&& a.exit_price is Some && a.pnl_usd is Some
                &&& a.closed_at == Some(now)
                &&& a.outcome == Outcome::Win <==> a.pnl_usd->0 >= 0
            }
            &&& a.outcome == Outcome::Open ==> a == t
            &&& a.id == t.id && a.idea == t.idea && a.created_at == t.created_at
        }),
{
}

/// A look at the prices closes as many trades as there are fewer open ones
/// after it.
pub proof fn closings_leave_the_open(
    s: Seq<Trade>,
    prices: Map<Seq<char>, int>,
    now: int,
    n: int,
)
    requires
        0 <= n <= s.len(),
    ensures
        still_open(looked_at(s, prices, now), n) + closings(s, prices, now, n).len() == still_open(
            s,
            n,
        ),
    decreases n,
{
    if n > 0 {
        closings_leave_the_open(s, prices, now, n - 1);
        assert(looked_at(s, prices, now)[n - 1] == s[n - 1].after(prices, now));
    }
}

/// The live-ready alert comes once: after it, no metrics bring another.
pub proof fn the_alert_comes_once(
    before: LearningEngine,
    after: LearningEngine,
    m: Figures,
    later: Figures,
)
    requires
        before.alerts(m),
        after.live_notified == (before.live_notified || before.alerts(m)),
    ensures
        before.targets_met(m),
        !after.alerts(later),
{
}

/// A trade that exits on the winning side of its entry loses nothing, and one
/// that exits on the losing side wins nothing.
pub proof fn results_follow_the_price(dir: Direction, entry: int, exit: int, size: int)
    requires
        entry > 0,
        size >= 0,
    ensures
        pnl(dir, entry, exit, size) matches Some(p) ==> {
            let winning = match dir {
                Direction::Long => exit >= entry,
                Direction::Short => exit <= entry,
            };
            let losing = match dir {
                Direction::Long => exit <= entry,
                Direction::Short => exit >= entry,
            };
            (winning ==> p >= 0) && (losing ==> p <= 0)
        },
{
    let gap = match dir {
        Direction::Long => exit - entry,
        Direction::Short => entry - exit,
    };
    if let Some(moved) = nearest(gap, 1) {
        if gap >= 0 {
            nearest_keeps_bounds(gap, 1, 0);
            sign_is_kept(moved, entry);
            if let Some(q) = quotient(moved, entry) {
                sign_is_kept(q, size);
            }
        }
        if gap <= 0 {
            rounding_stays_below_zero(gap, 1);
            rounding_stays_below_zero(moved * one(), entry);
            if let Some(q) = quotient(moved, entry) {
                assert(q * size <= 0) by (nonlinear_arith)
                    requires
                        q <= 0,
                        size >= 0,
                ;
                rounding_stays_below_zero(q * size, one());
            }
        }
    }
}

/// A trade whose target lies on the winning side of its entry wins where it
/// hits the target.  Where it hits a stop on the losing side, it wins nothing.
pub proof fn targets_win(t: Trade, prices: Map<Seq<char>, int>, now: int)
    requires
        t.outcome == Outcome::Open,
        t.idea.entry > 0,
        t.idea.size_usd >= 0,
        match t.idea.direction {
            Direction::Long => t.idea.stop_loss <= t.idea.entry <= t.idea.take_profit,
            Direction::Short => t.idea.take_profit <= t.idea.entry <= t.idea.stop_loss,
        },
    ensures
        t.closing(prices, now) matches Some((exit, p)) ==> {
            let price = prices[t.idea.symbol];
            &&& t.tp_hit(price) ==> exit == t.idea.take_profit && p >= 0 && t.after(
                prices,
                now,
            ).outcome == Outcome::Win
            &&& !t.tp_hit(price) && t.sl_hit(price) ==> exit == t.idea.stop_loss && p <= 0
        },
{
    if let Some((exit, p)) = t.closing(prices, now) {
        results_follow_the_price(t.idea.direction, t.idea.entry, exit, t.idea.size_usd);
    }
}

/// A trade has a result where its entry is at least a hundred-millionth, entry
/// and exit are at most a trillion, and its size is at most a hundred million.
pub proof fn ordinary_trades_have_a_result(dir: Direction, entry: int, exit: int, size: int)
    requires
        dec(1, 8) <= entry <= dec(1000000000000, 0),
        0 <= exit <= dec(1000000000000, 0),
        0 <= size <= dec(100000000, 0),
    ensures
        pnl(dir, entry, exit, size) is Some,
{
    lemma_pow10_28();
    let e = one();
    let least = dec(1, 8);
    assert(least == 100000000000000000000) by {
        reveal_with_fuel(pow10, 21);
    }
    let most = 1000000000000 * e;
    let ratio = 100000000000000000000 * e;
    let whole = 10000000000000000000000000000 * e;
    assert(representable(most)) by {
        assert(dec(1000000000000, 0) == most);
    }
    assert(representable(ratio)) by {
        assert(dec(100000000000000000000, 0) == ratio);
    }
    assert(representable(whole)) by {
        assert(dec(10000000000000000000000000000, 0) == whole);
    }
    let gap = match dir {
        Direction::Long => exit - entry,
        Direction::Short => entry - exit,
    };
    rounding_stays_within(gap, 1, most);
    let moved = nearest(gap, 1)->0;
    assert(-(ratio * entry) <= moved * e <= ratio * entry) by (nonlinear_arith)
        requires
            -(1000000000000 * e) <= moved <= 1000000000000 * e,
            ratio == 100000000000000000000 * e,
            entry >= 100000000000000000000,
            e == 10000000000000000000000000000,
    ;
    rounding_stays_within(moved * e, entry, ratio);
    let q = quotient(moved, entry)->0;
    assert(-(whole * e) <= q * size <= whole * e) by (nonlinear_arith)
        requires
            -(100000000000000000000 * e) <= q <= 100000000000000000000 * e,
            0 <= size <= 100000000 * e,
            whole == 10000000000000000000000000000 * e,
            e > 0,
    ;
    rounding_stays_within(q * size, e, whole);
}

/// So an open trade of that kind closes just where it is due.
pub proof fn due_trades_close(t: Trade, prices: Map<Seq<char>, int>, now: int)
    requires
        t.outcome == Outcome::Open,
        prices.contains_key(t.idea.symbol),
        dec(1, 8) <= t.idea.entry <= dec(1000000000000, 0),
        0 <= t.idea.take_profit <= dec(1000000000000, 0),
        0 <= t.idea.stop_loss <= dec(1000000000000, 0),
        0 <= prices[t.idea.symbol] <= dec(1000000000000, 0),
        0 <= t.idea.size_usd <= dec(100000000, 0),
    ensures
        t.closing(prices, now) is Some <==> t.due(prices[t.idea.symbol], now) is Some,
{
    if let Some(exit) = t.due(prices[t.idea.symbol], now) {
        ordinary_trades_have_a_result(t.idea.direction, t.idea.entry, exit, t.idea.size_usd);
    }
}

} // verus!
