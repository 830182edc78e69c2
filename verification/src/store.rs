//! The books: the account, the closed trades and what can be read off them.
//! Rows come from and go to the database as plain values.

use vstd::prelude::*;
use vstd::string::*;

use crate::decimal::{
    dec, difference, exact_results_stand, lemma_dec_monotone, lemma_pow10_28, lemma_pow10_adds,
    lemma_pow10_monotone, lemma_pow10_positive, magnitude, max_of, nearest_is_exact,
    nearest_is_representable, nearest_is_there, nearest_keeps_bounds, neutral_elements,
    o_difference, o_max, o_min, o_product, o_quotient, o_sum, one, pow10, product, quotient,
    representable, rounding_shows, rounding_stays_below_zero, share, shares_are_there, sum,
    try_difference, try_larger, try_product, try_quotient, try_smaller, try_sum, val, Decimal,
    MAX_MANTISSA,
};
use crate::indicators::count;
use crate::text::{add_text, id_form, id_text, join, joined, same_text, texts};
use crate::types::{Figures, Metrics, Signal};

verus! {

// ── Error ─────────────────────────────────────────────────────────

#[derive(Debug)]
pub enum DbError {
    Sqlite(String),
    Serde(String),
    /// A balance left the decimal range.
    OutOfRange,
}

impl DbError {
    pub open spec fn text(self) -> Seq<char> {
        match self {
            DbError::Sqlite(e) => "SQLite error: "@ + e@,
            DbError::Serde(e) => "Serialisation error: "@ + e@,
            DbError::OutOfRange => "Balance out of range"@,
        }
    }

    pub fn to_string(&self) -> (r: String)
        ensures
            r@ == self.text(),
    {
        match self {
            DbError::Sqlite(e) => {
                let mut r = "SQLite error: ".to_owned();
                r.append(e.as_str());
                r
            },
            DbError::Serde(e) => {
                let mut r = "Serialisation error: ".to_owned();
                r.append(e.as_str());
                r
            },
            DbError::OutOfRange => "Balance out of range".to_owned(),
        }
    }
}

// ── Account ───────────────────────────────────────────────────────

/// The account row.
#[derive(Debug, Clone, Copy)]
pub struct Account {
    pub capital: Decimal,
    pub peak: Decimal,
    pub total_pnl: Decimal,
    pub daily_pnl: Decimal,
    /// Seconds since the Unix epoch.
    pub last_reset: i64,
}

/// What an account row stands for.
pub struct Balances {
    pub capital: int,
    pub peak: int,
    pub total_pnl: int,
    pub daily_pnl: int,
    pub last_reset: int,
}

impl View for Account {
    type V = Balances;

    open spec fn view(&self) -> Balances {
        Balances {
            capital: self.capital@,
            peak: self.peak@,
            total_pnl: self.total_pnl@,
            daily_pnl: self.daily_pnl@,
            last_reset: self.last_reset as int,
        }
    }
}

impl Balances {
    /// The balances after a trade.  `None` where one leaves the decimal range.
    pub open spec fn booked(self, pnl: int) -> Option<Balances> {
        match (sum(self.capital, pnl), sum(self.total_pnl, pnl), sum(self.daily_pnl, pnl)) {
            (Some(capital), Some(total), Some(daily)) => Some(
                Balances {
                    capital,
                    peak: max_of(self.peak, capital),
                    total_pnl: total,
                    daily_pnl: daily,
                    last_reset: self.last_reset,
                },
            ),
            _ => None,
        }
    }

    /// The balances at the start of a day.
    pub open spec fn reset(self, now: int) -> Balances {
        Balances { daily_pnl: 0, last_reset: now, ..self }
    }
}

impl Account {
    /// The capital is not above its peak.
    pub open spec fn wf(self) -> bool {
        self.capital@ <= self.peak@
    }

    /// The account before the first trade.
    pub fn new() -> (r: Account)
        ensures
            r.wf(),
            r.capital@ == one() && r.peak@ == one(),
            r.total_pnl@ == 0 && r.daily_pnl@ == 0,
            r.last_reset == 0,
    {
        Account {
            capital: Decimal::one(),
            peak: Decimal::one(),
            total_pnl: Decimal::zero(),
            daily_pnl: Decimal::zero(),
            last_reset: 0,
        }
    }

    /// Books the result of a trade.  Where a balance would leave the decimal
    /// range, nothing is booked.
    pub fn close_trade(&mut self, pnl: Decimal) -> (r: Result<(), DbError>)
        ensures
            match (
                sum(old(self).capital@, pnl@),
                sum(old(self).total_pnl@, pnl@),
                sum(old(self).daily_pnl@, pnl@),
            ) {
                (Some(capital), Some(total), Some(daily)) => {
                    &&& r is Ok
                    &&& final(self).capital@ == capital
                    &&& final(self).total_pnl@ == total
                    &&& final(self).daily_pnl@ == daily
                    &&& final(self).peak@ == max_of(old(self).peak@, capital)
                    &&& final(self).last_reset == old(self).last_reset
                },
                _ => r == Err::<(), DbError>(DbError::OutOfRange) && *final(self) == *old(self),
            },
            old(self).wf() || r is Ok ==> final(self).wf(),
            match old(self)@.booked(pnl@) {
                Some(b) => r is Ok && final(self)@ == b,
                None => r is Err && final(self)@ == old(self)@,
            },
    {
        match (
            self.capital.checked_add(pnl),
            self.total_pnl.checked_add(pnl),
            self.daily_pnl.checked_add(pnl),
        ) {
            (Some(capital), Some(total), Some(daily)) => {
                self.capital = capital;
                self.total_pnl = total;
                self.daily_pnl = daily;
                self.peak = self.peak.larger(capital);
                Ok(())
            },
            _ => Err(DbError::OutOfRange),
        }
    }

    /// Starts a new day.
    pub fn reset_daily(&mut self, now: i64)
        ensures
            final(self).daily_pnl@ == 0,
            final(self).last_reset == now,
            final(self).capital == old(self).capital,
            final(self).peak == old(self).peak,
            final(self).total_pnl == old(self).total_pnl,
            old(self).wf() ==> final(self).wf(),
            final(self)@ == old(self)@.reset(now as int),
    {
        self.daily_pnl = Decimal::zero();
        self.last_reset = now;
    }
}

// ── Rows ──────────────────────────────────────────────────────────

/// The texts and the time of a signal's row; its numbers are the signal's own.
#[derive(Debug)]
pub struct SignalRow {
    pub id: String,
    pub symbol: String,
    pub direction: String,
    pub kind: String,
    pub reasons: String,
    /// Seconds since the Unix epoch.
    pub created_at: i64,
}

/// Writes a signal for its row.
pub fn signal_row(s: &Signal) -> (r: SignalRow)
    ensures
        r.id@ == id_form(s.id),
        r.symbol@ == s.symbol@,
        r.direction@ == s.direction.text(),
        r.kind@ == s.kind.text(),
        r.reasons@ == joined(texts(s.reasons@), "|"@, s.reasons@.len() as int),
        r.created_at == s.created_at as int / 1000,
{
    SignalRow {
        id: id_text(s.id),
        symbol: s.symbol.to_string(),
        direction: s.direction.to_string(),
        kind: s.kind.to_string(),
        reasons: join(&s.reasons, "|"),
        created_at: seconds(s.created_at),
    }
}

/// The whole seconds of a time in milliseconds, rounded down.
pub fn seconds(ms: i64) -> (r: i64)
    ensures
        r == ms as int / 1000,
{
    if ms >= 0 {
        ms / 1000
    } else {
        // The exec division rounds towards zero.
        let q = -((-(ms + 1)) / 1000) - 1;
        assert(q == ms as int / 1000) by (nonlinear_arith)
            requires
                q == -((-(ms + 1)) as int / 1000) - 1,
                ms < 0,
        ;
        q
    }
}

/// The row of a closed trade.
#[derive(Debug)]
pub struct TradeRow {
    pub outcome: String,
    pub pnl: Decimal,
}

/// What a trade's row stands for.
pub struct Closed {
    pub outcome: Seq<char>,
    pub pnl: int,
}

impl View for TradeRow {
    type V = Closed;

    open spec fn view(&self) -> Closed {
        Closed { outcome: self.outcome@, pnl: self.pnl@ }
    }
}

pub open spec fn closed(s: Seq<TradeRow>) -> Seq<Closed> {
    s.map_values(|t: TradeRow| t@)
}

// ── Metrics ───────────────────────────────────────────────────────

/// How many of the first `n` trades came out as `outcome`.
pub open spec fn tally(rows: Seq<Closed>, outcome: Seq<char>, n: int) -> int
    decreases n,
{
    if n <= 0 {
        0
    } else if rows[n - 1].outcome == outcome {
        tally(rows, outcome, n - 1) + 1
    } else {
        tally(rows, outcome, n - 1)
    }
}

/// What the wins among the first `n` trades brought.
pub open spec fn total_win(rows: Seq<Closed>, n: int) -> Option<int>
    decreases n,
{
    if n <= 0 {
        Some(0)
    } else if rows[n - 1].outcome == "WIN"@ {
        o_sum(total_win(rows, n - 1), Some(rows[n - 1].pnl))
    } else {
        total_win(rows, n - 1)
    }
}

/// What the losses among the first `n` trades cost.
pub open spec fn total_loss(rows: Seq<Closed>, n: int) -> Option<int>
    decreases n,
{
    if n <= 0 {
        Some(0)
    } else if rows[n - 1].outcome == "LOSS"@ {
        o_sum(total_loss(rows, n - 1), Some(magnitude(rows[n - 1].pnl)))
    } else {
        total_loss(rows, n - 1)
    }
}

/// The equity after the first `n` trades.
pub open spec fn equity(rows: Seq<Closed>, start: int, n: int) -> Option<int>
    decreases n,
{
    if n <= 0 {
        Some(start)
    } else {
        o_sum(equity(rows, start, n - 1), Some(rows[n - 1].pnl))
    }
}

/// The highest equity up to the `n`th trade.
pub open spec fn peak_equity(rows: Seq<Closed>, start: int, n: int) -> Option<int>
    decreases n,
{
    if n <= 0 {
        Some(start)
    } else {
        o_max(peak_equity(rows, start, n - 1), equity(rows, start, n))
    }
}

/// How far an equity is below a peak, as a share of the peak.
pub open spec fn drawdown(peak: Option<int>, equity: Option<int>) -> Option<int> {
    match peak {
        Some(p) => if p > 0 {
            o_quotient(o_difference(peak, equity), peak)
        } else {
            match equity {
                Some(_) => Some(0),
                None => None,
            }
        },
        None => None,
    }
}

/// The deepest drawdown up to the `n`th trade.
pub open spec fn max_drawdown(rows: Seq<Closed>, start: int, n: int) -> Option<int>
    decreases n + 1,
{
    if n < 0 {
        Some(0)
    } else {
        o_max(
            max_drawdown(rows, start, n - 1),
            drawdown(peak_equity(rows, start, n), equity(rows, start, n)),
        )
    }
}

/// Full Kelly: `(p·b − q) / b`.
pub open spec fn kelly(p: int, b: int) -> Option<int> {
    o_quotient(o_difference(product(p, b), difference(one(), p)), Some(b))
}

/// Full Kelly for the win rate `p` and the average win `b` times the average
/// loss.  `None` where `b` is zero or a step leaves the decimal range.
pub fn full_kelly(p: Decimal, b: Decimal) -> (r: Option<Decimal>)
    ensures
        val(r) == kelly(p@, b@),
{
    let q = Decimal::one().checked_sub(p);
    try_quotient(try_difference(p.checked_mul(b), q), Some(b))
}

/// The share of the capital to trade: a part of full Kelly, within 1 % and
/// 10 %.
pub open spec fn sized_kelly(p: int, avg_win: int, avg_loss: int, multiplier: int) -> Option<int> {
    let b = quotient(avg_win, max_of(avg_loss, dec(1, 9)));
    let full = o_quotient(
        o_difference(o_product(Some(p), b), difference(one(), p)),
        o_max(b, Some(dec(1, 9))),
    );
    o_min(o_max(o_product(full, Some(multiplier)), Some(dec(1, 2))), Some(dec(10, 2)))
}

fn kelly_size(p: Decimal, avg_win: Decimal, avg_loss: Decimal, multiplier: Decimal) -> (r: Option<
    Decimal,
>)
    ensures
        val(r) == sized_kelly(p@, avg_win@, avg_loss@, multiplier@),
{
    let tiny = Decimal::new(1, 9);
    let full = match avg_win.checked_div(avg_loss.larger(tiny)) {
        None => None,
        Some(b) => if b.less(tiny) {
            let q = Decimal::one().checked_sub(p);
            try_quotient(try_difference(p.checked_mul(b), q), Some(tiny))
        } else {
            full_kelly(p, b)
        },
    };
    try_smaller(
        try_larger(try_product(full, Some(multiplier)), Some(Decimal::new(1, 2))),
        Some(Decimal::new(10, 2)),
    )
}

/// A mean of `n` values, or `default` where there are none.
pub open spec fn mean(total: Option<int>, n: int, default: int) -> Option<int> {
    if n > 0 {
        o_quotient(total, Some(count(n)))
    } else {
        Some(default)
    }
}

fn mean_of(total: Option<Decimal>, n: usize, default: Decimal) -> (r: Option<Decimal>)
    ensures
        val(r) == mean(val(total), n as int, default@),
{
    if n > 0 {
        try_quotient(total, Some(Decimal::from_count(n)))
    } else {
        Some(default)
    }
}

/// The metrics of some closed trades, for an account that started with
/// `start` and now holds `capital`.
pub open spec fn figures(rows: Seq<Closed>, start: int, capital: int, multiplier: int) -> Option<
    Figures,
> {
    let n = rows.len() as int;
    let wins = tally(rows, "WIN"@, n);
    let losses = tally(rows, "LOSS"@, n);
    let won = total_win(rows, n);
    let lost = total_loss(rows, n);
    let win_rate = share(wins, wins + losses);
    let factor = match lost {
        Some(l) => if l > 0 {
            o_quotient(won, lost)
        } else {
            won
        },
        None => None,
    };
    match (
        mean(won, wins, 0),
        mean(lost, losses, one()),
        factor,
        o_difference(won, lost),
        max_drawdown(rows, start, n),
    ) {
        (Some(avg_win), Some(avg_loss), Some(factor), Some(pnl), Some(dd)) => match sized_kelly(
            win_rate,
            avg_win,
            avg_loss,
            multiplier,
        ) {
            Some(kelly) => Some(
                Figures {
                    total: wins + losses,
                    wins,
                    losses,
                    win_rate,
                    avg_win_usd: avg_win,
                    avg_loss_usd: avg_loss,
                    profit_factor: factor,
                    total_pnl: pnl,
                    max_drawdown: dd,
                    kelly_fraction: kelly,
                    capital,
                },
            ),
            None => None,
        },
        _ => None,
    }
}

fn drawdown_of(peak: Option<Decimal>, equity: Option<Decimal>) -> (r: Option<Decimal>)
    ensures
        val(r) == drawdown(val(peak), val(equity)),
{
    match peak {
        Some(p) => if Decimal::zero().less(p) {
            try_quotient(try_difference(peak, equity), peak)
        } else {
            match equity {
                Some(_) => Some(Decimal::zero()),
                None => None,
            }
        },
        None => None,
    }
}

/// Computes the metrics of the closed trades, in the order in which they were
/// closed.  `kelly_multiplier` is the part of full Kelly to trade.  `None`
/// where a step leaves the decimal range.
pub fn metrics(
    rows: &[TradeRow],
    starting_capital: Decimal,
    capital: Decimal,
    kelly_multiplier: Decimal,
) -> (r: Option<Metrics>)
    ensures
        match r {
            Some(m) => figures(
                closed(rows@),
                starting_capital@,
                capital@,
                kelly_multiplier@,
            ) == Some(m@),
            None => figures(
                closed(rows@),
                starting_capital@,
                capital@,
                kelly_multiplier@,
            ) is None,
        },
{
    let ghost all = closed(rows@);
    let ghost start = starting_capital@;
    let n = rows.len();
    let mut wins: usize = 0;
    let mut losses: usize = 0;
    let mut won = Some(Decimal::zero());
    let mut lost = Some(Decimal::zero());
    let mut running = Some(starting_capital);
    let mut peak = Some(starting_capital);
    let mut worst = try_larger(Some(Decimal::zero()), drawdown_of(peak, running));
    let mut i: usize = 0;
    assert(max_drawdown(all, start, -1) == Some(0int));
    while i < n
        invariant
            i <= n == rows@.len(),
            all == closed(rows@),
            start == starting_capital@,
            wins + losses <= i,
            wins == tally(all, "WIN"@, i as int),
            losses == tally(all, "LOSS"@, i as int),
            val(won) == total_win(all, i as int),
            val(lost) == total_loss(all, i as int),
            val(running) == equity(all, start, i as int),
            val(peak) == peak_equity(all, start, i as int),
            val(worst) == max_drawdown(all, start, i as int),
        decreases n - i,
    {
        let row = &rows[i];
        assert(all[i as int] == row@);
        proof {
            reveal_strlit("WIN");
            reveal_strlit("LOSS");
            assert("WIN"@.len() != "LOSS"@.len());
        }
        running = try_sum(running, Some(row.pnl));
        peak = try_larger(peak, running);
        worst = try_larger(worst, drawdown_of(peak, running));
        if same_text(row.outcome.as_str(), "WIN") {
            wins = wins + 1;
            won = try_sum(won, Some(row.pnl));
        } else if same_text(row.outcome.as_str(), "LOSS") {
            losses = losses + 1;
            lost = try_sum(lost, Some(row.pnl.abs()));
        }
        i = i + 1;
    }
    let total = wins + losses;
    let win_rate = Decimal::ratio(wins, total);
    let avg_win = mean_of(won, wins, Decimal::zero());
    let avg_loss = mean_of(lost, losses, Decimal::one());
    let factor = match lost {
        Some(l) => if Decimal::zero().less(l) {
            try_quotient(won, lost)
        } else {
            won
        },
        None => None,
    };
    match (avg_win, avg_loss, factor, try_difference(won, lost), worst) {
        (Some(avg_win), Some(avg_loss), Some(factor), Some(pnl), Some(dd)) => {
            match kelly_size(win_rate, avg_win, avg_loss, kelly_multiplier) {
                Some(kelly) => Some(
                    Metrics {
                        total,
                        wins,
                        losses,
                        win_rate,
                        avg_win_usd: avg_win,
                        avg_loss_usd: avg_loss,
                        profit_factor: factor,
                        total_pnl: pnl,
                        max_drawdown: dd,
                        kelly_fraction: kelly,
                        capital,
                    },
                ),
                None => None,
            }
        },
        _ => None,
    }
}

proof fn lemma_tallies(rows: Seq<Closed>, n: int)
    ensures
        0 <= tally(rows, "WIN"@, n),
        0 <= tally(rows, "LOSS"@, n),
    decreases n,
{
    if n > 0 {
        lemma_tallies(rows, n - 1);
    }
}

pub proof fn lemma_drawdown_sign(rows: Seq<Closed>, start: int, n: int)
    ensures
        max_drawdown(rows, start, n) matches Some(d) ==> d >= 0,
    decreases n + 1,
{
    if n >= 0 {
        lemma_drawdown_sign(rows, start, n - 1);
    }
}

/// Of every metrics: wins and losses make up the total, the win rate is within
/// 0 and 1, the drawdown is not negative, and the Kelly fraction is within
/// 1 % and 10 %.
pub proof fn metrics_are_consistent(
    rows: Seq<Closed>,
    start: int,
    capital: int,
    multiplier: int,
)
    ensures
        figures(rows, start, capital, multiplier) matches Some(f) ==> {
            &&& f.wins >= 0 && f.losses >= 0
            &&& f.total == f.wins + f.losses
            &&& 0 <= f.win_rate <= one()
            &&& f.max_drawdown >= 0
            &&& dec(1, 2) <= f.kelly_fraction <= dec(10, 2)
            &&& f.capital == capital
        },
{
    let n = rows.len() as int;
    lemma_tallies(rows, n);
    lemma_drawdown_sign(rows, start, n);
    lemma_dec_monotone(1, 10, 2);
    if let Some(f) = figures(rows, start, capital, multiplier) {
        if f.total > 0 {
            let e = one();
            let a = f.wins * e;
            let b = f.total * e;
            assert(0 <= a * e <= (1 * e) * b && b > 0) by (nonlinear_arith)
                requires
                    a == f.wins * e,
                    b == f.total * e,
                    0 <= f.wins <= f.total,
                    f.total > 0,
                    e > 0,
            ;
            nearest_is_there(a * e, b, 1);
            nearest_keeps_bounds(a * e, b, 1);
        }
    }
}

/// Without a closed trade every metric is zero but for the average loss, which
/// is taken as one, and the Kelly fraction, which is at its least.
pub proof fn metrics_of_no_trades(start: int, capital: int, multiplier: int)
    requires
        representable(start),
        0 <= multiplier <= one(),
    ensures
        figures(seq![], start, capital, multiplier) == Some(
            Figures {
                total: 0,
                wins: 0,
                losses: 0,
                win_rate: 0,
                avg_win_usd: 0,
                avg_loss_usd: one(),
                profit_factor: 0,
                total_pnl: 0,
                max_drawdown: 0,
                kelly_fraction: dec(1, 2),
                capital,
            },
        ),
{
    lemma_zero();
    neutral_elements(0);
    neutral_elements(start);
    lemma_pow10_28();
    let rows = Seq::<Closed>::empty();
    assert(max_drawdown(rows, start, -1) == Some(0int));
    if start > 0 {
        nearest_is_exact(0, start);
        assert(0 * start == 0);
        assert(quotient(0, start) == Some(0int));
    }
    assert(max_drawdown(rows, start, 0) == Some(0int));
    let tiny = dec(1, 9);
    let full = dec(-1000000000, 0);
    assert(sized_kelly(0, 0, one(), multiplier) == Some(dec(1, 2))) by {
        lemma_pow10_adds(9, 19);
        assert(pow10(9) == 1000000000) by {
            reveal_with_fuel(pow10, 10);
        }
        assert(tiny == pow10(19));
        lemma_pow10_positive(19);
        assert(tiny <= one());
        nearest_is_exact(0, one());
        assert(quotient(0, one()) == Some(0int));
        assert(product(0, 0) == Some(0int));
        assert(representable(-one())) by {
            assert(dec(-1, 0) == -one());
        }
        assert(representable(one())) by {
            assert(dec(1, 0) == one());
        }
        exact_results_stand(one(), 0, one());
        exact_results_stand(0, one(), -one());
        assert(representable(full));
        let e = one();
        assert(-e * e == full * tiny) by (nonlinear_arith)
            requires
                full == -1000000000 * e,
                e == 1000000000 * tiny,
        ;
        exact_results_stand(-one(), tiny, full);
        shares_are_there(full, multiplier);
        assert(full * multiplier <= 0) by (nonlinear_arith)
            requires
                full <= 0,
                multiplier >= 0,
        ;
        rounding_stays_below_zero(full * multiplier, one());
        lemma_dec_monotone(0, 1, 2);
        lemma_dec_monotone(1, 10, 2);
    }
}

proof fn lemma_zero()
    ensures
        representable(0),
{
    assert(dec(0, 0) == 0);
}

/// The equity never falls below what it was before.
pub open spec fn never_falls(rows: Seq<Closed>, start: int) -> bool {
    forall|i: int, j: int|
        0 <= i <= j <= rows.len() ==> (#[trigger] equity(rows, start, i))->0 <= (
        #[trigger] equity(rows, start, j))->0
}

/// Is the fall from the peak at the `n`th trade, if there is one, more than
/// half of the last decimal of a share of that peak?
pub open spec fn fall_shows(rows: Seq<Closed>, start: int, n: int) -> bool {
    let peak = peak_equity(rows, start, n)->0;
    let fall = peak - equity(rows, start, n)->0;
    fall > 0 ==> 2 * (fall * one()) > peak
}

proof fn lemma_equities(rows: Seq<Closed>, start: int, n: int)
    requires
        0 <= n <= rows.len(),
        start > 0,
        representable(start),
        max_drawdown(rows, start, n) is Some,
    ensures
        equity(rows, start, n) matches Some(e) && representable(e),
        peak_equity(rows, start, n) matches Some(p) && representable(p) && p > 0,
        forall|i: int|
            0 <= i <= n ==> (#[trigger] equity(rows, start, i)) is Some && equity(rows, start, i)->0
                <= peak_equity(rows, start, n)->0,
        forall|i: int|
            0 <= i <= n ==> drawdown(
                #[trigger] peak_equity(rows, start, i),
                equity(rows, start, i),
            )->0 <= max_drawdown(rows, start, n)->0,
    decreases n,
{
    if n > 0 {
        lemma_equities(rows, start, n - 1);
        let before = equity(rows, start, n - 1)->0;
        nearest_is_representable(before + rows[n - 1].pnl, 1);
    } else {
        assert(max_drawdown(rows, start, -1) == Some(0int));
    }
}

proof fn lemma_no_fall(rows: Seq<Closed>, start: int, n: int)
    requires
        0 <= n <= rows.len(),
        start > 0,
        representable(start),
        never_falls(rows, start),
        max_drawdown(rows, start, n) is Some,
    ensures
        peak_equity(rows, start, n) == equity(rows, start, n),
        max_drawdown(rows, start, n) == Some(0int),
    decreases n,
{
    lemma_equities(rows, start, n);
    if n > 0 {
        lemma_no_fall(rows, start, n - 1);
        assert(equity(rows, start, n - 1)->0 <= equity(rows, start, n)->0);
    } else {
        assert(max_drawdown(rows, start, -1) == Some(0int));
    }
    let e = equity(rows, start, n)->0;
    lemma_zero();
    nearest_is_exact(0, 1);
    nearest_is_exact(0, e);
    assert(0 * e == 0);
    assert(quotient(0, e) == Some(0int));
}

proof fn lemma_fall_shows(peak: int, equity: int)
    requires
        representable(peak),
        peak > equity,
        peak > 0,
        2 * ((peak - equity) * one()) > peak,
    ensures
        drawdown(Some(peak), Some(equity)) matches Some(d) ==> d > 0,
{
    lemma_pow10_28();
    let e = one();
    let fall = peak - equity;
    if difference(peak, equity) is Some {
        let d = difference(peak, equity)->0;
        if fall <= MAX_MANTISSA {
            assert(representable(fall)) by {
                assert(pow10(0) == 1);
                assert(dec(fall, 28) == fall);
            }
            nearest_is_exact(fall, 1);
        } else {
            nearest_keeps_bounds(fall, 1, 7);
            let (m, s) = choose|m: int, s: nat|
                -MAX_MANTISSA <= m <= MAX_MANTISSA && s <= 28 && peak == #[trigger] dec(m, s);
            let u = pow10((28 - s) as nat);
            lemma_pow10_monotone((28 - s) as nat, 28);
            lemma_pow10_positive((28 - s) as nat);
            assert(m * u < 14 * e * e) by (nonlinear_arith)
                requires
                    m <= MAX_MANTISSA,
                    MAX_MANTISSA < 14 * e,
                    0 < u <= e,
            ;
            assert(2 * (d * e) >= 14 * e * e) by (nonlinear_arith)
                requires
                    d >= 7 * e,
                    e > 0,
            ;
        }
        rounding_shows(d * e, peak);
    }
}

/// The deepest drawdown is zero just where the equity never falls below what it
/// was before.  A fall that is no more than half of the last decimal of a share
/// of the peak does not count: it is rounded away.
pub proof fn drawdown_means_a_fall(rows: Seq<Closed>, start: int)
    requires
        start > 0,
        representable(start),
        max_drawdown(rows, start, rows.len() as int) is Some,
        forall|i: int| 0 <= i <= rows.len() ==> #[trigger] fall_shows(rows, start, i),
    ensures
        max_drawdown(rows, start, rows.len() as int) == Some(0int) <==> never_falls(rows, start),
{
    let n = rows.len() as int;
    if never_falls(rows, start) {
        lemma_no_fall(rows, start, n);
    } else if max_drawdown(rows, start, n) == Some(0int) {
        assert forall|i: int, j: int| 0 <= i <= j <= n implies (#[trigger] equity(
            rows,
            start,
            i,
        ))->0 <= (#[trigger] equity(rows, start, j))->0 by {
            lemma_drawdowns_are_there(rows, start, j, n);
            lemma_equities(rows, start, j);
            lemma_equities(rows, start, n);
            assert(fall_shows(rows, start, j));
            let peak = peak_equity(rows, start, j)->0;
            if equity(rows, start, j)->0 < peak {
                lemma_fall_shows(peak, equity(rows, start, j)->0);
            }
        }
    }
}

proof fn lemma_drawdowns_are_there(rows: Seq<Closed>, start: int, i: int, n: int)
    requires
        0 <= i <= n,
        max_drawdown(rows, start, n) is Some,
    ensures
        max_drawdown(rows, start, i) is Some,
    decreases n - i,
{
    if i < n {
        lemma_drawdowns_are_there(rows, start, i, n - 1);
    }
}

// ── Per-setup and per-symbol stats ────────────────────────────────

#[derive(Debug)]
pub struct SetupStat {
    pub kind: String,
    pub total: usize,
    pub wins: usize,
    pub total_pnl: Decimal,
}

#[derive(Debug)]
pub struct SymbolStat {
    pub symbol: String,
    pub total: usize,
    pub wins: usize,
    pub total_pnl: Decimal,
}

/// What a stat stands for.
pub struct Stat {
    pub key: Seq<char>,
    pub total: int,
    pub wins: int,
    pub total_pnl: int,
}

impl View for SetupStat {
    type V = Stat;

    open spec fn view(&self) -> Stat {
        Stat {
            key: self.kind@,
            total: self.total as int,
            wins: self.wins as int,
            total_pnl: self.total_pnl@,
        }
    }
}

impl View for SymbolStat {
    type V = Stat;

    open spec fn view(&self) -> Stat {
        Stat {
            key: self.symbol@,
            total: self.total as int,
            wins: self.wins as int,
            total_pnl: self.total_pnl@,
        }
    }
}

impl SetupStat {
    pub fn win_rate(&self) -> (r: Decimal)
        ensures
            r@ == share(self.wins as int, self.total as int),
    {
        Decimal::ratio(self.wins, self.total)
    }
}

impl SymbolStat {
    pub fn win_rate(&self) -> (r: Decimal)
        ensures
            r@ == share(self.wins as int, self.total as int),
    {
        Decimal::ratio(self.wins, self.total)
    }
}

/// A closed trade under the key (setup or symbol) of its signal.
#[derive(Debug)]
pub struct KeyedRow {
    pub key: String,
    pub outcome: String,
    pub pnl: Decimal,
}

/// What a keyed row stands for.
pub struct Keyed {
    pub key: Seq<char>,
    pub outcome: Seq<char>,
    pub pnl: int,
}

impl View for KeyedRow {
    type V = Keyed;

    open spec fn view(&self) -> Keyed {
        Keyed { key: self.key@, outcome: self.outcome@, pnl: self.pnl@ }
    }
}

pub open spec fn keyed(s: Seq<KeyedRow>) -> Seq<Keyed> {
    s.map_values(|t: KeyedRow| t@)
}

/// The keys of the first `n` rows, each once, in the order in which they
/// first occur.
pub open spec fn keys(rows: Seq<Keyed>, n: int) -> Seq<Seq<char>>
    decreases n,
{
    if n <= 0 {
        seq![]
    } else if keys(rows, n - 1).contains(rows[n - 1].key) {
        keys(rows, n - 1)
    } else {
        keys(rows, n - 1).push(rows[n - 1].key)
    }
}

/// How many of the first `n` rows are under `key`.
pub open spec fn key_total(rows: Seq<Keyed>, key: Seq<char>, n: int) -> int
    decreases n,
{
    if n <= 0 {
        0
    } else if rows[n - 1].key == key {
        key_total(rows, key, n - 1) + 1
    } else {
        key_total(rows, key, n - 1)
    }
}

/// How many of the first `n` rows are wins under `key`.
pub open spec fn key_wins(rows: Seq<Keyed>, key: Seq<char>, n: int) -> int
    decreases n,
{
    if n <= 0 {
        0
    } else if rows[n - 1].key == key && rows[n - 1].outcome == "WIN"@ {
        key_wins(rows, key, n - 1) + 1
    } else {
        key_wins(rows, key, n - 1)
    }
}

/// What the rows under `key` among the first `n` brought.
pub open spec fn key_pnl(rows: Seq<Keyed>, key: Seq<char>, n: int) -> Option<int>
    decreases n,
{
    if n <= 0 {
        Some(0)
    } else if rows[n - 1].key == key {
        o_sum(key_pnl(rows, key, n - 1), Some(rows[n - 1].pnl))
    } else {
        key_pnl(rows, key, n - 1)
    }
}

/// The stat of one key.
pub open spec fn stat_of(rows: Seq<Keyed>, key: Seq<char>) -> Stat {
    let n = rows.len() as int;
    Stat {
        key,
        total: key_total(rows, key, n),
        wins: key_wins(rows, key, n),
        total_pnl: key_pnl(rows, key, n)->0,
    }
}

/// One stat for each key.  `None` where a sum leaves the decimal range.
pub open spec fn stats_of(rows: Seq<Keyed>) -> Option<Seq<Stat>> {
    let n = rows.len() as int;
    let ks = keys(rows, n);
    if forall|i: int| 0 <= i < ks.len() ==> key_pnl(rows, #[trigger] ks[i], n) is Some {
        Some(ks.map_values(|k: Seq<char>| stat_of(rows, k)))
    } else {
        None
    }
}

/// Does the list hold the text?
fn listed(list: &Vec<String>, text: &str) -> (r: bool)
    ensures
        r == texts(list@).contains(text@),
{
    let ghost all = texts(list@);
    let mut i: usize = 0;
    while i < list.len()
        invariant
            i <= list@.len(),
            all == texts(list@),
            forall|j: int| 0 <= j < i ==> #[trigger] all[j] != text@,
        decreases list@.len() - i,
    {
        assert(all[i as int] == list@[i as int]@);
        if same_text(list[i].as_str(), text) {
            return true;
        }
        i = i + 1;
    }
    false
}

fn distinct_keys(rows: &[KeyedRow]) -> (r: Vec<String>)
    ensures
        texts(r@) == keys(keyed(rows@), rows@.len() as int),
{
    let ghost all = keyed(rows@);
    let mut out: Vec<String> = Vec::new();
    let mut i: usize = 0;
    assert(texts(out@) =~= seq![]);
    while i < rows.len()
        invariant
            i <= rows@.len(),
            all == keyed(rows@),
            texts(out@) == keys(all, i as int),
        decreases rows@.len() - i,
    {
        assert(all[i as int] == rows@[i as int]@);
        if !listed(&out, rows[i].key.as_str()) {
            add_text(&mut out, rows[i].key.clone());
        }
        i = i + 1;
    }
    out
}

/// The counts and the sum of one key.
fn count_key(rows: &[KeyedRow], key: &str) -> (r: (usize, usize, Option<Decimal>))
    ensures
        r.0 == key_total(keyed(rows@), key@, rows@.len() as int),
        r.1 == key_wins(keyed(rows@), key@, rows@.len() as int),
        val(r.2) == key_pnl(keyed(rows@), key@, rows@.len() as int),
{
    let ghost all = keyed(rows@);
    let mut total: usize = 0;
    let mut wins: usize = 0;
    let mut pnl = Some(Decimal::zero());
    let mut i: usize = 0;
    while i < rows.len()
        invariant
            i <= rows@.len(),
            all == keyed(rows@),
            total <= i && wins <= i,
            total == key_total(all, key@, i as int),
            wins == key_wins(all, key@, i as int),
            val(pnl) == key_pnl(all, key@, i as int),
        decreases rows@.len() - i,
    {
        let row = &rows[i];
        assert(all[i as int] == row@);
        if same_text(row.key.as_str(), key) {
            total = total + 1;
            if same_text(row.outcome.as_str(), "WIN") {
                wins = wins + 1;
            }
            pnl = try_sum(pnl, Some(row.pnl));
        }
        i = i + 1;
    }
    (total, wins, pnl)
}

/// The stats of every setup that has a closed trade.  `None` where a sum
/// leaves the decimal range.
pub fn setup_stats(rows: &[KeyedRow]) -> (r: Option<Vec<SetupStat>>)
    ensures
        match r {
            Some(v) => stats_of(keyed(rows@)) == Some(v@.map_values(|s: SetupStat| s@)),
            None => stats_of(keyed(rows@)) is None,
        },
{
    let ghost all = keyed(rows@);
    let ghost n = rows@.len() as int;
    let list = distinct_keys(rows);
    let ghost ks = keys(all, n);
    let mut out: Vec<SetupStat> = Vec::new();
    let mut i: usize = 0;
    while i < list.len()
        invariant
            i <= list@.len() == ks.len(),
            all == keyed(rows@),
            n == rows@.len() == all.len(),
            ks == keys(all, n),
            texts(list@) == ks,
            out@.len() == i,
            forall|j: int| 0 <= j < i ==> (#[trigger] out@[j])@ == stat_of(all, ks[j]),
            forall|j: int| 0 <= j < i ==> key_pnl(all, #[trigger] ks[j], n) is Some,
        decreases ks.len() - i,
    {
        let key = list[i].clone();
        assert(ks[i as int] == key@);
        let (total, wins, pnl) = count_key(rows, key.as_str());
        match pnl {
            Some(total_pnl) => out.push(SetupStat { kind: key, total, wins, total_pnl }),
            None => {
                return None;
            },
        }
        i = i + 1;
    }
    assert(out@.map_values(|s: SetupStat| s@) =~= ks.map_values(|k: Seq<char>| stat_of(all, k)));
    Some(out)
}

/// The stats of every symbol that has a closed trade.  `None` where a sum
/// leaves the decimal range.
pub fn symbol_stats(rows: &[KeyedRow]) -> (r: Option<Vec<SymbolStat>>)
    ensures
        match r {
            Some(v) => stats_of(keyed(rows@)) == Some(v@.map_values(|s: SymbolStat| s@)),
            None => stats_of(keyed(rows@)) is None,
        },
{
    let ghost all = keyed(rows@);
    let ghost n = rows@.len() as int;
    let list = distinct_keys(rows);
    let ghost ks = keys(all, n);
    let mut out: Vec<SymbolStat> = Vec::new();
    let mut i: usize = 0;
    while i < list.len()
        invariant
            i <= list@.len() == ks.len(),
            all == keyed(rows@),
            n == rows@.len() == all.len(),
            ks == keys(all, n),
            texts(list@) == ks,
            out@.len() == i,
            forall|j: int| 0 <= j < i ==> (#[trigger] out@[j])@ == stat_of(all, ks[j]),
            forall|j: int| 0 <= j < i ==> key_pnl(all, #[trigger] ks[j], n) is Some,
        decreases ks.len() - i,
    {
        let key = list[i].clone();
        assert(ks[i as int] == key@);
        let (total, wins, pnl) = count_key(rows, key.as_str());
        match pnl {
            Some(total_pnl) => out.push(SymbolStat { symbol: key, total, wins, total_pnl }),
            None => {
                return None;
            },
        }
        i = i + 1;
    }
    assert(out@.map_values(|s: SymbolStat| s@) =~= ks.map_values(|k: Seq<char>| stat_of(all, k)));
    Some(out)
}

/// Every row's key has a stat, no key has two, and a key has at most as many
/// wins as trades.
pub proof fn stats_cover_the_rows(rows: Seq<Keyed>, n: int)
    requires
        0 <= n <= rows.len(),
    ensures
        keys(rows, n).no_duplicates(),
        forall|i: int| 0 <= i < n ==> keys(rows, n).contains((#[trigger] rows[i]).key),
        forall|i: int|
            0 <= i < keys(rows, n).len() ==> 0 <= key_wins(rows, #[trigger] keys(rows, n)[i], n)
                <= key_total(rows, keys(rows, n)[i], n),
    decreases n,
{
    if n > 0 {
        stats_cover_the_rows(rows, n - 1);
        let before = keys(rows, n - 1);
        let after = keys(rows, n);
        assert forall|i: int| 0 <= i < n implies after.contains((#[trigger] rows[i]).key) by {
            if i < n - 1 {
                assert(before.contains(rows[i].key));
                let j = before.index_of(rows[i].key);
                assert(after[j] == rows[i].key);
            } else if !before.contains(rows[i].key) {
                assert(after[before.len() as int] == rows[i].key);
            }
        }
        assert forall|i: int| 0 <= i < after.len() implies 0 <= key_wins(
            rows,
            #[trigger] after[i],
            n,
        ) <= key_total(rows, after[i], n) by {
            lemma_key_counts(rows, after[i], n);
        }
    }
}

proof fn lemma_key_counts(rows: Seq<Keyed>, key: Seq<char>, n: int)
    ensures
        0 <= key_wins(rows, key, n) <= key_total(rows, key, n),
    decreases n,
{
    if n > 0 {
        lemma_key_counts(rows, key, n - 1);
    }
}

/// The totals of the first `m` keys, added up.
pub open spec fn totals(rows: Seq<Keyed>, ks: Seq<Seq<char>>, n: int, m: int) -> int
    decreases m,
{
    if m <= 0 {
        0
    } else {
        totals(rows, ks, n, m - 1) + key_total(rows, ks[m - 1], n)
    }
}

/// Every row is counted in exactly one stat: the totals add up to the number
/// of rows.
pub proof fn stats_count_every_row_once(rows: Seq<Keyed>, n: int)
    requires
        0 <= n <= rows.len(),
    ensures
        totals(rows, keys(rows, n), n, keys(rows, n).len() as int) == n,
    decreases n,
{
    if n > 0 {
        stats_count_every_row_once(rows, n - 1);
        stats_cover_the_rows(rows, n - 1);
        let before = keys(rows, n - 1);
        let key = rows[n - 1].key;
        lemma_totals_step(rows, before, n, before.len() as int);
        assert(before.take(before.len() as int) =~= before);
        if !before.contains(key) {
            lemma_key_absent(rows, key, n - 1);
            lemma_totals_prefix(rows, before, before.push(key), n, before.len() as int);
        }
    } else {
        assert(keys(rows, 0).len() == 0);
    }
}

/// One more row raises the total of its key, and no other, by one.
proof fn lemma_totals_step(rows: Seq<Keyed>, ks: Seq<Seq<char>>, n: int, m: int)
    requires
        n > 0,
        0 <= m <= ks.len(),
        ks.no_duplicates(),
    ensures
        totals(rows, ks, n, m) == totals(rows, ks, n - 1, m) + (if ks.take(m).contains(
            rows[n - 1].key,
        ) {
            1int
        } else {
            0
        }),
    decreases m,
{
    let key = rows[n - 1].key;
    if m > 0 {
        lemma_totals_step(rows, ks, n, m - 1);
        if ks[m - 1] == key {
            assert(ks.take(m)[m - 1] == key);
            assert(!ks.take(m - 1).contains(key));
        } else if ks.take(m - 1).contains(key) {
            let j = ks.take(m - 1).index_of(key);
            assert(ks.take(m)[j] == key);
        } else {
            assert forall|j: int| 0 <= j < m implies ks.take(m)[j] != key by {
                if j < m - 1 {
                    assert(ks.take(m - 1)[j] == ks[j]);
                }
            }
        }
    }
}

proof fn lemma_totals_prefix(
    rows: Seq<Keyed>,
    a: Seq<Seq<char>>,
    b: Seq<Seq<char>>,
    n: int,
    m: int,
)
    requires
        0 <= m <= a.len() <= b.len(),
        forall|i: int| 0 <= i < a.len() ==> a[i] == b[i],
    ensures
        totals(rows, a, n, m) == totals(rows, b, n, m),
    decreases m,
{
    if m > 0 {
        lemma_totals_prefix(rows, a, b, n, m - 1);
    }
}

proof fn lemma_key_absent(rows: Seq<Keyed>, key: Seq<char>, n: int)
    requires
        0 <= n <= rows.len(),
        !keys(rows, n).contains(key),
    ensures
        key_total(rows, key, n) == 0,
    decreases n,
{
    if n > 0 {
        stats_cover_the_rows(rows, n);
        assert(keys(rows, n).contains(rows[n - 1].key));
        if keys(rows, n - 1).contains(key) {
            let j = keys(rows, n - 1).index_of(key);
            assert(keys(rows, n)[j] == key);
        }
        lemma_key_absent(rows, key, n - 1);
    }
}

} // verus!
