//! All pre-trade safety checks and position-sizing logic.
//!
//! The [`RiskManager`] is the **last gate** before any order is sent.
//! If `pre_trade_check` returns `Err`, the signal is discarded.

use vstd::prelude::*;
use vstd::string::*;

use crate::config::Config;
use crate::decimal::{
    dec, lemma_pow10_28, max_of, min_of, nearest_is_there, one, product, representable,
    shares_are_there, Decimal,
};
use crate::text::{fixed, fixed_text};
use crate::types::Metrics;

verus! {

// ── Error ─────────────────────────────────────────────────────────

#[derive(Debug, Clone, Copy)]
pub enum RiskError {
    CircuitBreaker,
    DailyLossCap { loss: Decimal, cap: Decimal },
    MaxDrawdown { dd: Decimal, max: Decimal },
    /// A limit left the decimal range.
    OutOfRange,
}

/// What a risk error stands for.
pub enum Halt {
    CircuitBreaker,
    DailyLossCap { loss: int, cap: int },
    MaxDrawdown { dd: int, max: int },
    OutOfRange,
}

impl View for RiskError {
    type V = Halt;

    open spec fn view(&self) -> Halt {
        match self {
            RiskError::CircuitBreaker => Halt::CircuitBreaker,
            RiskError::DailyLossCap { loss, cap } => Halt::DailyLossCap { loss: loss@, cap: cap@ },
            RiskError::MaxDrawdown { dd, max } => Halt::MaxDrawdown { dd: dd@, max: max@ },
            RiskError::OutOfRange => Halt::OutOfRange,
        }
    }
}

impl Halt {
    pub open spec fn text(self) -> Seq<char> {
        match self {
            Halt::CircuitBreaker => "Circuit breaker active — trading halted until reset"@,
            Halt::DailyLossCap { loss, cap } => "Daily loss cap hit ($"@ + fixed(loss, 2)
                + " loss vs $"@ + fixed(cap, 2) + " cap)"@,
            Halt::MaxDrawdown { dd, max } => "Max drawdown exceeded ("@ + fixed(dd, 1) + "% vs "@
                + fixed(max, 1) + "% limit)"@,
            Halt::OutOfRange => "Risk limit out of range"@,
        }
    }
}

impl RiskError {
    pub fn to_string(&self) -> (r: String)
        ensures
            r@ == self@.text(),
    {
        match self {
            RiskError::CircuitBreaker => {
                "Circuit breaker active — trading halted until reset".to_owned()
            },
            RiskError::DailyLossCap { loss, cap } => {
                let mut r = "Daily loss cap hit ($".to_owned();
                r.append(fixed_text(*loss, 2).as_str());
                r.append(" loss vs $");
                r.append(fixed_text(*cap, 2).as_str());
                r.append(" cap)");
                r
            },
            RiskError::MaxDrawdown { dd, max } => {
                let mut r = "Max drawdown exceeded (".to_owned();
                r.append(fixed_text(*dd, 1).as_str());
                r.append("% vs ");
                r.append(fixed_text(*max, 1).as_str());
                r.append("% limit)");
                r
            },
            RiskError::OutOfRange => "Risk limit out of range".to_owned(),
        }
    }
}

// ── Manager ───────────────────────────────────────────────────────

#[derive(Debug)]
pub struct RiskManager {
    pub max_daily_loss_pct: Decimal,
    pub max_drawdown_pct: Decimal,
    pub max_trade_size_pct: Decimal,
    /// Set while trading is halted.
    pub breaker: bool,
}

/// What a drawdown beyond its limit is answered, in percent.
pub open spec fn drawdown_halt(drawdown: int, limit: int) -> Halt {
    match (product(drawdown, dec(100, 0)), product(limit, dec(100, 0))) {
        (Some(dd), Some(max)) => Halt::MaxDrawdown { dd, max },
        _ => Halt::OutOfRange,
    }
}

impl RiskManager {
    /// Is trading halted?
    pub open spec fn halted(self) -> bool {
        self.breaker
    }

    /// What a trade is answered: `None` where it is permitted.
    pub open spec fn verdict(self, capital: int, daily_pnl: int, drawdown: int) -> Option<Halt> {
        if self.halted() {
            Some(Halt::CircuitBreaker)
        } else {
            match product(capital, self.max_daily_loss_pct@) {
                None => Some(Halt::OutOfRange),
                Some(cap) => if daily_pnl < -cap {
                    Some(Halt::DailyLossCap { loss: -daily_pnl, cap })
                } else if drawdown > self.max_drawdown_pct@ {
                    Some(drawdown_halt(drawdown, self.max_drawdown_pct@))
                } else {
                    None
                },
            }
        }
    }

    /// The same limits as `other`.
    pub open spec fn same_limits(self, other: RiskManager) -> bool {
        &&& self.max_daily_loss_pct == other.max_daily_loss_pct
        &&& self.max_drawdown_pct == other.max_drawdown_pct
        &&& self.max_trade_size_pct == other.max_trade_size_pct
    }

    pub fn new(config: &Config) -> (r: RiskManager)
        ensures
            !r.halted(),
            r.max_daily_loss_pct == config.max_daily_loss_pct,
            r.max_drawdown_pct == config.max_drawdown_pct,
            r.max_trade_size_pct == config.max_trade_size_pct,
    {
        RiskManager {
            max_daily_loss_pct: config.max_daily_loss_pct,
            max_drawdown_pct: config.max_drawdown_pct,
            max_trade_size_pct: config.max_trade_size_pct,
            breaker: false,
        }
    }

    // ── Pre-trade gate ────────────────────────────────────────────

    /// Returns `Ok(())` if trading is permitted, `Err(RiskError)` if any
    /// safety constraint is violated.  Whatever is refused trips the circuit
    /// breaker.
    pub fn pre_trade_check(
        &mut self,
        capital: Decimal,
        daily_pnl: Decimal,
        max_drawdown: Decimal,
    ) -> (r: Result<(), RiskError>)
        ensures
            match old(self).verdict(capital@, daily_pnl@, max_drawdown@) {
                Some(h) => r is Err && r->Err_0@ == h,
                None => r is Ok,
            },
            final(self).halted() == r is Err,
            final(self).same_limits(*old(self)),
    {
        // 1. Circuit breaker (manual or auto-tripped)
        if self.breaker {
            return Err(RiskError::CircuitBreaker);
        }
        // 2. Daily loss cap
        let cap = match capital.checked_mul(self.max_daily_loss_pct) {
            Some(x) => x,
            None => {
                self.trip_breaker();
                return Err(RiskError::OutOfRange);
            },
        };
        if daily_pnl.less(cap.negated()) {
            self.trip_breaker();
            return Err(RiskError::DailyLossCap { loss: daily_pnl.negated(), cap });
        }
        // 3. Maximum drawdown
        if self.max_drawdown_pct.less(max_drawdown) {
            self.trip_breaker();
            let hundred = Decimal::new(100, 0);
            return match (
                max_drawdown.checked_mul(hundred),
                self.max_drawdown_pct.checked_mul(hundred),
            ) {
                (Some(dd), Some(max)) => Err(RiskError::MaxDrawdown { dd, max }),
                _ => Err(RiskError::OutOfRange),
            };
        }
        Ok(())
    }

    // ── Position sizing ───────────────────────────────────────────

    /// Returns the USD amount to risk on the next trade: the capital times
    /// the Kelly fraction of the metrics, at least one dollar, and then at
    /// most the hard cap `capital × max_trade_size_pct`.  `None` where a step
    /// leaves the decimal range.
    pub fn position_size(&self, m: &Metrics) -> (r: Option<Decimal>)
        ensures
            match r {
                Some(size) => position(
                    m.capital@,
                    m.kelly_fraction@,
                    self.max_trade_size_pct@,
                ) == Some(size@),
                None => position(m.capital@, m.kelly_fraction@, self.max_trade_size_pct@) is None,
            },
    {
        let min = Decimal::one();
        match (
            m.capital.checked_mul(m.kelly_fraction),
            m.capital.checked_mul(self.max_trade_size_pct),
        ) {
            (Some(size), Some(max)) => Some(size.larger(min).smaller(max)),
            _ => None,
        }
    }

    // ── Manual controls ───────────────────────────────────────────

    /// Trips the circuit breaker.
    pub fn trip_breaker(&mut self)
        ensures
            final(self).halted(),
            final(self).same_limits(*old(self)),
    {
        self.breaker = true;
    }

    /// Clears the circuit breaker (call after manual review or cool-down).
    pub fn reset_breaker(&mut self)
        ensures
            !final(self).halted(),
            final(self).same_limits(*old(self)),
    {
        self.breaker = false;
    }

    pub fn is_halted(&self) -> (r: bool)
        ensures
            r == self.halted(),
    {
        self.breaker
    }
}

/// The amount to risk on a trade.  The hard cap wins over the least amount.
pub open spec fn position(capital: int, kelly_fraction: int, max_pct: int) -> Option<int> {
    match (product(capital, kelly_fraction), product(capital, max_pct)) {
        (Some(size), Some(max)) => Some(min_of(max_of(size, one()), max)),
        _ => None,
    }
}

// ── Laws ──────────────────────────────────────────────────────────

/// An amount to risk is never above the hard cap of a trade, and at least one
/// dollar where the cap is.
pub proof fn position_is_bounded(capital: int, kelly_fraction: int, max_pct: int)
    ensures
        position(capital, kelly_fraction, max_pct) matches Some(size) ==> {
            &&& product(capital, max_pct) matches Some(max) && size <= max && (one() <= max
                ==> one() <= size)
        },
{
}

/// There is an amount to risk whenever the shares are within 0 and 1.
pub proof fn a_position_is_there(capital: int, kelly_fraction: int, max_pct: int)
    requires
        representable(capital),
        0 <= kelly_fraction <= one(),
        0 <= max_pct <= one(),
    ensures
        position(capital, kelly_fraction, max_pct) is Some,
{
    shares_are_there(capital, kelly_fraction);
    shares_are_there(capital, max_pct);
}

/// With a daily limit within 0 and 1, and a drawdown and its limit whose
/// percentages are in range, the answers are these: trading is halted, the
/// daily loss is beyond its cap, the drawdown is beyond its limit, or else the
/// trade is permitted.
pub proof fn checks_are_answered(m: RiskManager, capital: int, daily_pnl: int, drawdown: int)
    requires
        representable(capital),
        0 <= m.max_daily_loss_pct@ <= one(),
        product(drawdown, dec(100, 0)) is Some,
        product(m.max_drawdown_pct@, dec(100, 0)) is Some,
    ensures
        product(capital, m.max_daily_loss_pct@) matches Some(cap) && m.verdict(
            capital,
            daily_pnl,
            drawdown,
        ) == if m.halted() {
            Some(Halt::CircuitBreaker)
        } else if daily_pnl < -cap {
            Some(Halt::DailyLossCap { loss: -daily_pnl, cap })
        } else if drawdown > m.max_drawdown_pct@ {
            Some(
                Halt::MaxDrawdown {
                    dd: product(drawdown, dec(100, 0))->0,
                    max: product(m.max_drawdown_pct@, dec(100, 0))->0,
                },
            )
        } else {
            None
        },
{
    shares_are_there(capital, m.max_daily_loss_pct@);
}

/// The percentage of a share is in range up to the hundredth part of the
/// largest decimal.
pub proof fn percentages_are_there(share: int)
    requires
        0 <= share <= dec(792281625142643375935439503, 0),
    ensures
        product(share, dec(100, 0)) is Some,
{
    lemma_pow10_28();
    let e = one();
    let w = 79228162514264337593543950300int;
    assert(0 <= share * (100 * e) <= (w * e) * e) by (nonlinear_arith)
        requires
            0 <= share <= 792281625142643375935439503 * e,
            w == 79228162514264337593543950300,
            e > 0,
    ;
    nearest_is_there(share * (100 * e), e, w);
}

/// After a check that was refused, every check is answered that trading is
/// halted, whatever the balances are by then, until the breaker is reset.
pub proof fn halt_lasts(
    before: RiskManager,
    after: RiskManager,
    capital: int,
    daily_pnl: int,
    drawdown: int,
    later_capital: int,
    later_pnl: int,
    later_drawdown: int,
)
    requires
        before.verdict(capital, daily_pnl, drawdown) is Some,
        after.halted() == before.verdict(capital, daily_pnl, drawdown) is Some,
    ensures
        after.verdict(later_capital, later_pnl, later_drawdown) == Some(Halt::CircuitBreaker),
{
}

} // verus!
