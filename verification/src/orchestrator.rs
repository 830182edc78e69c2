//! The top-level driver's decisions: what a round of the main loop does next,
//! what goes to the exchange, and when the background tasks run.

use vstd::prelude::*;

use crate::config::{Config, Mode};
use crate::decimal::{dec, max_of, Decimal};
use crate::exchange::names;
use crate::signals::EngineConfig;
use crate::types::{
    rated, CoinScore, Direction, Metrics, OrderRequest, OrderSide, Rated, Signal, Symbol,
};

verus! {

// ── One round of the main loop ────────────────────────────────────

/// Where a round is.
#[derive(Debug, Clone, Copy, PartialEq, Eq, Structural)]
pub enum Stage {
    /// The risk gate is asked.
    Gate,
    /// The current prices are fetched.
    Pricing,
    /// The open trades are evaluated.
    Evaluating,
    /// The candles of a symbol are fetched.
    Fetching(usize),
    /// The card of one of a symbol's signals is sent.
    Carding { symbol: usize, signal: usize, signals: usize },
    /// That signal is recorded.
    Recording { symbol: usize, signal: usize, signals: usize },
    /// An order is placed for it.
    Trading { symbol: usize, signal: usize, signals: usize },
    /// The round is over.
    Over,
}

/// What came of the last action.
#[derive(Debug, Clone, Copy, PartialEq, Eq, Structural)]
pub enum Event {
    Permitted,
    Refused,
    Priced,
    PricesFailed,
    Evaluated,
    /// The candles came, and so many signals were made of them.
    Analysed(usize),
    CandlesFailed,
    CardSent,
    Recorded,
    RecordFailed,
    Ordered,
}

/// What to do next.
#[derive(Debug, Clone, Copy, PartialEq, Eq, Structural)]
pub enum Action {
    /// Send the alert, pause for so many seconds and reset the breaker.
    Halt(u64),
    FetchPrices,
    EvaluateOpen,
    FetchCandles(usize),
    SendCard { symbol: usize, signal: usize },
    Record { symbol: usize, signal: usize },
    PlaceOrder { symbol: usize, signal: usize },
    /// Log the status, and wait for the next tick.
    Finish,
    /// Wait for the next tick.
    Skip,
}

/// How long trading pauses after a risk limit was hit, in seconds.
pub const COOL_DOWN_SECS: u64 = 300;

/// A round of the main loop.
#[derive(Debug, Clone, Copy)]
pub struct Round {
    /// The number of symbols on the watchlist.
    pub watched: usize,
    /// Are orders placed?
    pub live: bool,
    pub stage: Stage,
}

/// The symbol after `symbol`, or the end of the round.
pub open spec fn next_symbol(symbol: usize, watched: usize) -> (Stage, Action) {
    if symbol + 1 < watched {
        (
            Stage::Fetching((symbol + 1) as usize),
            Action::FetchCandles((symbol + 1) as usize),
        )
    } else {
        (Stage::Over, Action::Finish)
    }
}

/// The signal `signal` of a symbol, or the next symbol.
pub open spec fn next_signal(symbol: usize, signal: int, signals: usize, watched: usize) -> (
    Stage,
    Action,
) {
    if signal < signals {
        (
            Stage::Carding { symbol, signal: signal as usize, signals },
            Action::SendCard { symbol, signal: signal as usize },
        )
    } else {
        next_symbol(symbol, watched)
    }
}

impl Round {
    /// What an event leads to.  An event that does not belong to the stage
    /// ends the round.
    pub open spec fn next(self, e: Event) -> (Stage, Action) {
        match (self.stage, e) {
            (Stage::Gate, Event::Refused) => (Stage::Over, Action::Halt(COOL_DOWN_SECS)),
            (Stage::Gate, Event::Permitted) => if self.watched == 0 {
                (Stage::Over, Action::Skip)
            } else {
                (Stage::Pricing, Action::FetchPrices)
            },
            (Stage::Pricing, Event::Priced) => (Stage::Evaluating, Action::EvaluateOpen),
            (Stage::Pricing, Event::PricesFailed) => (Stage::Over, Action::Skip),
            (Stage::Evaluating, Event::Evaluated) => if self.watched == 0 {
                (Stage::Over, Action::Finish)
            } else {
                (Stage::Fetching(0), Action::FetchCandles(0))
            },
            (Stage::Fetching(symbol), Event::Analysed(signals)) => next_signal(
                symbol,
                0,
                signals,
                self.watched,
            ),
            (Stage::Fetching(symbol), Event::CandlesFailed) => next_symbol(symbol, self.watched),
            (Stage::Carding { symbol, signal, signals }, Event::CardSent) => (
                Stage::Recording { symbol, signal, signals },
                Action::Record { symbol, signal },
            ),
            (Stage::Recording { symbol, signal, signals }, Event::Recorded) => if self.live {
                (
                    Stage::Trading { symbol, signal, signals },
                    Action::PlaceOrder { symbol, signal },
                )
            } else {
                next_signal(symbol, signal + 1, signals, self.watched)
            },
            (Stage::Recording { symbol, signal, signals }, Event::RecordFailed) => next_signal(
                symbol,
                signal + 1,
                signals,
                self.watched,
            ),
            (Stage::Trading { symbol, signal, signals }, Event::Ordered) => next_signal(
                symbol,
                signal + 1,
                signals,
                self.watched,
            ),
            _ => (Stage::Over, Action::Skip),
        }
    }

    /// Starts a round at the risk gate.
    pub fn new(watched: usize, live: bool) -> (r: Round)
        ensures
            r == (Round { watched, live, stage: Stage::Gate }),
    {
        Round { watched, live, stage: Stage::Gate }
    }

    fn symbol_after(&self, symbol: usize) -> (r: (Stage, Action))
        ensures
            r == next_symbol(symbol, self.watched),
    {
        if symbol < usize::MAX && symbol + 1 < self.watched {
            (Stage::Fetching(symbol + 1), Action::FetchCandles(symbol + 1))
        } else {
            (Stage::Over, Action::Finish)
        }
    }

    fn signal_after(&self, symbol: usize, signal: usize, signals: usize) -> (r: (Stage, Action))
        ensures
            r == next_signal(symbol, signal + 1, signals, self.watched),
    {
        if signal < usize::MAX && signal + 1 < signals {
            (
                Stage::Carding { symbol, signal: signal + 1, signals },
                Action::SendCard { symbol, signal: signal + 1 },
            )
        } else {
            self.symbol_after(symbol)
        }
    }

    /// Takes in an event, and decides what to do next.
    pub fn step(&mut self, e: Event) -> (r: Action)
        ensures
            (final(self).stage, r) == old(self).next(e),
            final(self).watched == old(self).watched,
            final(self).live == old(self).live,
    {
        let (stage, action) = match (self.stage, e) {
            (Stage::Gate, Event::Refused) => (Stage::Over, Action::Halt(COOL_DOWN_SECS)),
            (Stage::Gate, Event::Permitted) => if self.watched == 0 {
                (Stage::Over, Action::Skip)
            } else {
                (Stage::Pricing, Action::FetchPrices)
            },
            (Stage::Pricing, Event::Priced) => (Stage::Evaluating, Action::EvaluateOpen),
            (Stage::Pricing, Event::PricesFailed) => (Stage::Over, Action::Skip),
            (Stage::Evaluating, Event::Evaluated) => if self.watched == 0 {
                (Stage::Over, Action::Finish)
            } else {
                (Stage::Fetching(0), Action::FetchCandles(0))
            },
            (Stage::Fetching(symbol), Event::Analysed(signals)) => if signals > 0 {
                (
                    Stage::Carding { symbol, signal: 0, signals },
                    Action::SendCard { symbol, signal: 0 },
                )
            } else {
                self.symbol_after(symbol)
            },
            (Stage::Fetching(symbol), Event::CandlesFailed) => self.symbol_after(symbol),
            (Stage::Carding { symbol, signal, signals }, Event::CardSent) => (
                Stage::Recording { symbol, signal, signals },
                Action::Record { symbol, signal },
            ),
            (Stage::Recording { symbol, signal, signals }, Event::Recorded) => if self.live {
                (
                    Stage::Trading { symbol, signal, signals },
                    Action::PlaceOrder { symbol, signal },
                )
            } else {
                self.signal_after(symbol, signal, signals)
            },
            (
                Stage::Recording { symbol, signal, signals },
                Event::RecordFailed,
            ) => self.signal_after(symbol, signal, signals),
            (
                Stage::Trading { symbol, signal, signals },
                Event::Ordered,
            ) => self.signal_after(symbol, signal, signals),
            _ => (Stage::Over, Action::Skip),
        };
        self.stage = stage;
        action
    }
}

// ── Laws of a round ───────────────────────────────────────────────

/// In paper mode no order is ever placed, and in live mode only for a signal
/// that was just recorded.
pub proof fn orders_need_live_mode(r: Round, e: Event)
    ensures
        r.next(e).1 is PlaceOrder ==> r.live && e == Event::Recorded && r.stage is Recording,
{
}

/// Where the risk gate refuses, nothing is fetched: the round ends with the
/// halt.
pub proof fn refused_rounds_halt(r: Round)
    requires
        r.stage == Stage::Gate,
    ensures
        r.next(Event::Refused) == (Stage::Over, Action::Halt(COOL_DOWN_SECS)),
{
}

/// How much of a round is ahead: first its part, then the symbol, then the
/// signal, then what is done about it.
pub open spec fn ahead(r: Round) -> (int, int, int, int) {
    match r.stage {
        Stage::Gate => (5, 0, 0, 0),
        Stage::Pricing => (4, 0, 0, 0),
        Stage::Evaluating => (3, 0, 0, 0),
        Stage::Fetching(s) => (2, r.watched - s, 1, 0),
        Stage::Carding { symbol, signal, signals } => (
            2,
            r.watched - symbol,
            0,
            (signals - signal) * 3,
        ),
        Stage::Recording { symbol, signal, signals } => (
            2,
            r.watched - symbol,
            0,
            (signals - signal) * 3 - 1,
        ),
        Stage::Trading { symbol, signal, signals } => (
            2,
            r.watched - symbol,
            0,
            (signals - signal) * 3 - 2,
        ),
        Stage::Over => (0, 0, 0, 0),
    }
}

pub open spec fn shorter(a: (int, int, int, int), b: (int, int, int, int)) -> bool {
    ||| a.0 < b.0
    ||| a.0 == b.0 && a.1 < b.1
    ||| a.0 == b.0 && a.1 == b.1 && a.2 < b.2
    ||| a.0 == b.0 && a.1 == b.1 && a.2 == b.2 && a.3 < b.3
}

/// Every symbol and signal that an action names is one that there is.
pub open spec fn on_the_list(r: Round) -> bool {
    match r.stage {
        Stage::Fetching(s) => s < r.watched,
        Stage::Carding { symbol, signal, signals } => symbol < r.watched && signal < signals,
        Stage::Recording { symbol, signal, signals } => symbol < r.watched && signal < signals,
        Stage::Trading { symbol, signal, signals } => symbol < r.watched && signal < signals,
        _ => true,
    }
}

/// Every round ends: whatever the event, less of it is ahead than before, and
/// no part of that is ever below zero.
pub proof fn rounds_end(r: Round, e: Event)
    requires
        r.stage != Stage::Over,
        on_the_list(r),
    ensures
        ({
            let after = ahead(Round { watched: r.watched, live: r.live, stage: r.next(e).0 });
            &&& shorter(after, ahead(r))
            &&& after.0 >= 0 && after.1 >= 0 && after.2 >= 0 && after.3 >= 0
        }),
{
}

/// A round never leaves the watchlist.
pub proof fn rounds_stay_on_the_list(r: Round, e: Event)
    requires
        on_the_list(r),
    ensures
        on_the_list(Round { watched: r.watched, live: r.live, stage: r.next(e).0 }),
        match r.next(e).1 {
            Action::FetchCandles(s) => s < r.watched,
            Action::SendCard { symbol, .. } => symbol < r.watched,
            Action::Record { symbol, .. } => symbol < r.watched,
            Action::PlaceOrder { symbol, .. } => symbol < r.watched,
            _ => true,
        },
{
}

// ── What the round works with ─────────────────────────────────────

/// The engine's configuration: at most two signals per symbol and tick.
pub fn engine_config(config: &Config) -> (r: EngineConfig)
    ensures
        r.min_confidence == config.min_confidence,
        r.min_risk_reward == config.min_risk_reward,
        r.max_signals == 2,
{
    EngineConfig {
        min_confidence: config.min_confidence,
        min_risk_reward: config.min_risk_reward,
        max_signals: 2,
    }
}

/// The Kelly fraction for the next signals, at least 2 %.
pub fn signal_kelly(m: &Metrics) -> (r: Decimal)
    ensures
        r@ == max_of(m.kelly_fraction@, dec(2, 2)),
{
    m.kelly_fraction.larger(Decimal::new(2, 2))
}

/// The market order for a signal.
pub fn live_order(sig: &Signal, size: Decimal) -> (r: OrderRequest)
    ensures
        r.symbol@ == sig.symbol@,
        r.side == (match sig.direction {
            Direction::Long => OrderSide::Buy,
            Direction::Short => OrderSide::Sell,
        }),
        r.quote_qty == size,
{
    let side = match sig.direction {
        Direction::Long => OrderSide::Buy,
        Direction::Short => OrderSide::Sell,
    };
    OrderRequest { symbol: sig.symbol.clone(), side, quote_qty: size }
}

/// The symbols of the scanned coins, in their order.
pub fn watchlist(coins: &[CoinScore]) -> (r: Vec<Symbol>)
    ensures
        names(r@) == rated(coins@).map_values(|c: Rated| c.symbol),
{
    let mut out: Vec<Symbol> = Vec::new();
    let mut i: usize = 0;
    while i < coins.len()
        invariant
            i <= coins@.len(),
            out@.len() == i,
            forall|j: int| 0 <= j < i ==> (#[trigger] out@[j])@ == coins@[j].symbol@,
        decreases coins@.len() - i,
    {
        out.push(coins[i].symbol.clone());
        i = i + 1;
    }
    assert(names(out@) =~= rated(coins@).map_values(|c: Rated| c.symbol));
    out
}

/// Does the mode place orders?
pub fn places_orders(mode: Mode) -> (r: bool)
    ensures
        r == (mode == Mode::Live),
{
    mode == Mode::Live
}

// ── Background tasks ──────────────────────────────────────────────

#[derive(Debug, Clone, Copy, PartialEq, Eq, Structural)]
pub enum Task {
    /// Send the dashboard, every hour.
    Dashboard,
    /// Send the improvement report, every six hours.
    Advisor,
    /// Scan the market again, every four hours.
    Rescan,
    /// Reset the daily PnL, at midnight UTC.
    DailyReset,
}

/// A day, in milliseconds.
pub const DAY_MS: i64 = 86_400_000;

/// The milliseconds from `now` to the next midnight UTC, a whole day at
/// midnight itself.
pub open spec fn to_midnight(now: int) -> int {
    DAY_MS - now % (DAY_MS as int)
}

/// The milliseconds from `now` to the next midnight UTC.
pub fn until_midnight(now: i64) -> (r: i64)
    requires
        now >= 0,
    ensures
        r == to_midnight(now as int),
        0 < r <= DAY_MS,
        (now + r) % (DAY_MS as int) == 0,
{
    let into = now % DAY_MS;
    let r = DAY_MS - into;
    proof {
        let d = DAY_MS as int;
        vstd::arithmetic::div_mod::lemma_fundamental_div_mod(now as int, d);
        let q = now as int / d;
        assert(now + r == d * (q + 1)) by (nonlinear_arith)
            requires
                now == d * q + into,
                r == d - into,
        ;
        vstd::arithmetic::div_mod::lemma_mod_multiples_basic(q + 1, d);
        assert(d * (q + 1) == (q + 1) * d) by (nonlinear_arith);
    }
    r
}

/// The pause before a task first runs, in milliseconds, at the time `now`.
pub fn first_pause(task: Task, now: i64) -> (r: i64)
    requires
        now >= 0,
    ensures
        task == Task::Dashboard ==> r == 0,
        task == Task::Advisor ==> r == 1_800_000,
        task == Task::Rescan ==> r == 14_400_000,
        task == Task::DailyReset ==> r == to_midnight(now as int),
{
    match task {
        Task::Dashboard => 0,
        Task::Advisor => 1_800_000,
        Task::Rescan => 14_400_000,
        Task::DailyReset => until_midnight(now),
    }
}

/// The pause between two runs of a task, in milliseconds, at the time `now`.
pub fn next_pause(task: Task, now: i64) -> (r: i64)
    requires
        now >= 0,
    ensures
        task == Task::Dashboard ==> r == 3_600_000,
        task == Task::Advisor ==> r == 21_600_000,
        task == Task::Rescan ==> r == 14_400_000,
        task == Task::DailyReset ==> r == to_midnight(now as int),
{
    match task {
        Task::Dashboard => 3_600_000,
        Task::Advisor => 21_600_000,
        Task::Rescan => 14_400_000,
        Task::DailyReset => until_midnight(now),
    }
}

/// When a daily reset is due: first after the pause from the start `t0`, then
/// each time after the pause from the time at which the one before was done.
pub open spec fn reset_due(t0: int, done: Seq<int>, i: int) -> int {
    if i <= 0 {
        t0 + to_midnight(t0)
    } else {
        done[i - 1] + to_midnight(done[i - 1])
    }
}

/// Whenever the bot starts, the daily reset is due at the next midnight UTC and
/// then at every midnight, though each reset is done some time after it is due,
/// as long as that is the same day.  So none comes before the day is over.
pub proof fn resets_come_at_every_midnight(t0: int, done: Seq<int>, n: int)
    requires
        t0 >= 0,
        0 <= n <= done.len(),
        forall|i: int|
            0 <= i < n ==> reset_due(t0, done, i) <= #[trigger] done[i] < reset_due(t0, done, i)
                + DAY_MS,
    ensures
        reset_due(t0, done, n) == (t0 / (DAY_MS as int) + 1 + n) * DAY_MS,
        reset_due(t0, done, n) > t0,
    decreases n,
{
    let d = DAY_MS as int;
    let q = t0 / d;
    vstd::arithmetic::div_mod::lemma_fundamental_div_mod(t0, d);
    if n == 0 {
        assert((q + 1) * d == d * q + d) by (nonlinear_arith);
    } else {
        resets_come_at_every_midnight(t0, done, n - 1);
        let w = done[n - 1];
        let k = q + n;
        vstd::arithmetic::div_mod::lemma_fundamental_div_mod_converse(w, d, k, w - k * d);
        assert((k + 1) * d == k * d + d) by (nonlinear_arith);
    }
}

} // verus!
