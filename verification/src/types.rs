//! The domain types that the other modules share.
//!
//! Newtypes (`Symbol`, `Price`, `Quantity`) keep values of one underlying type
//! apart.  Points in time are milliseconds since the Unix epoch.

use vstd::prelude::*;
use vstd::std_specs::convert::FromSpecImpl;
use vstd::string::*;

use crate::decimal::{
    dec, difference, o_magnitude, o_product, o_quotient, try_abs, try_product, try_quotient, val,
    Decimal,
};
use crate::text::{
    ascii, ascii_lower, ascii_upper, cut, cut_text, lowercase, no_small_ascii, texts, unicode_lower,
    unicode_upper, uppercase,
};

verus! {

// ── Primitives ────────────────────────────────────────────────────

/// A trading-pair symbol, always stored upper-case (e.g. "BTCUSDT").
#[derive(Debug, Hash, PartialEq, Eq, PartialOrd, Ord)]
pub struct Symbol(String);

impl View for Symbol {
    type V = Seq<char>;

    closed spec fn view(&self) -> Seq<char> {
        self.0@
    }
}

impl Symbol {
    /// The text is the upper-case form of some text, and holds no small ASCII
    /// letter.
    #[verifier::type_invariant]
    closed spec fn wf(self) -> bool {
        &&& exists|t: Seq<char>| self.0@ == unicode_upper(t)
        &&& no_small_ascii(self.0@)
    }

    pub fn new(s: &str) -> (r: Symbol)
        ensures
            r@ == unicode_upper(s@),
            no_small_ascii(r@),
            ascii(s@) ==> r@ == s@.map_values(|c: char| ascii_upper(c)),
    {
        Symbol(uppercase(s))
    }

    /// The text of a symbol is always the upper-case form of some text, and
    /// holds no small ASCII letter.
    pub fn as_str(&self) -> (r: &str)
        ensures
            r@ == self@,
            exists|t: Seq<char>| r@ == unicode_upper(t),
            no_small_ascii(r@),
    {
        proof {
            use_type_invariant(self);
        }
        self.0.as_str()
    }

    pub fn to_lowercase(&self) -> (r: String)
        ensures
            r@ == unicode_lower(self@),
            ascii(self@) ==> r@ == self@.map_values(
                |c: char| ascii_lower(c),
            ),
    {
        lowercase(self.0.as_str())
    }

    pub fn to_string(&self) -> (r: String)
        ensures
            r@ == self@,
    {
        self.0.clone()
    }

    pub fn same(&self, other: &Symbol) -> (r: bool)
        ensures
            r == (self@ == other@),
    {
        self.0 == other.0
    }
}

impl<'a> From<&'a str> for Symbol {
    fn from(s: &'a str) -> (r: Symbol)
        ensures
            r@ == unicode_upper(s@),
            no_small_ascii(r@),
            ascii(s@) ==> r@ == s@.map_values(|c: char| ascii_upper(c)),
    {
        Symbol::new(s)
    }
}

impl<'a> FromSpecImpl<&'a str> for Symbol {
    // Equal views do not make equal texts, so that `from` speaks of the view.
    open spec fn obeys_from_spec() -> bool {
        false
    }

    open spec fn from_spec(s: &'a str) -> Symbol {
        arbitrary()
    }
}

impl Clone for Symbol {
    fn clone(&self) -> (r: Symbol)
        ensures
            r@ == self@,
    {
        proof {
            use_type_invariant(self);
        }
        Symbol(self.0.clone())
    }
}

/// ASCII texts that differ only in the case of their letters make the same
/// symbol.
pub proof fn case_is_ignored(s: Seq<char>, t: Seq<char>)
    requires
        ascii(s),
        ascii(t),
        s.map_values(|c: char| ascii_lower(c)) == t.map_values(|c: char| ascii_lower(c)),
    ensures
        s.map_values(|c: char| ascii_upper(c)) == t.map_values(|c: char| ascii_upper(c)),
{
    let a = s.map_values(|c: char| ascii_lower(c));
    let b = t.map_values(|c: char| ascii_lower(c));
    assert(s.len() == a.len() == b.len() == t.len());
    assert forall|i: int| 0 <= i < s.len() implies ascii_upper(#[trigger] s[i]) == ascii_upper(
        t[i],
    ) by {
        assert(a[i] == ascii_lower(s[i]));
        assert(b[i] == ascii_lower(t[i]));
    }
    assert(s.map_values(|c: char| ascii_upper(c)) =~= t.map_values(|c: char| ascii_upper(c)));
}

/// A price.
#[derive(Debug, Clone, Copy, PartialEq)]
pub struct Price(pub Decimal);

impl View for Price {
    type V = int;

    open spec fn view(&self) -> int {
        self.0@
    }
}

impl Price {
    pub fn new(d: Decimal) -> (r: Price)
        ensures
            r.0 == d,
    {
        Price(d)
    }

    pub fn inner(self) -> (r: Decimal)
        ensures
            r == self.0,
    {
        self.0
    }

    /// The price with six decimals.
    pub fn to_string(&self) -> (r: String)
        ensures
            r@ == cut(self@, 6),
    {
        cut_text(self.0, 6)
    }
}

/// An asset quantity.
#[derive(Debug, Clone, Copy, PartialEq)]
pub struct Quantity(pub Decimal);

impl View for Quantity {
    type V = int;

    open spec fn view(&self) -> int {
        self.0@
    }
}

impl Quantity {
    pub fn new(d: Decimal) -> (r: Quantity)
        ensures
            r.0 == d,
    {
        Quantity(d)
    }

    pub fn inner(self) -> (r: Decimal)
        ensures
            r == self.0,
    {
        self.0
    }
}

// ── Candle ────────────────────────────────────────────────────────

/// One bar of price and volume.
#[derive(Debug, Clone)]
pub struct Candle {
    pub symbol: Symbol,
    pub open_time: i64,
    pub open: Price,
    pub high: Price,
    pub low: Price,
    pub close: Price,
    pub volume: Quantity,
    pub quote_volume: Decimal,
    pub taker_buy_volume: Decimal,
    pub is_closed: bool,
}

/// What a candle stands for.
pub struct Bar {
    pub symbol: Seq<char>,
    pub open_time: int,
    pub open: int,
    pub high: int,
    pub low: int,
    pub close: int,
    pub volume: int,
    pub quote_volume: int,
    pub taker_buy_volume: int,
    pub is_closed: bool,
}

impl View for Candle {
    type V = Bar;

    open spec fn view(&self) -> Bar {
        Bar {
            symbol: self.symbol@,
            open_time: self.open_time as int,
            open: self.open@,
            high: self.high@,
            low: self.low@,
            close: self.close@,
            volume: self.volume@,
            quote_volume: self.quote_volume@,
            taker_buy_volume: self.taker_buy_volume@,
            is_closed: self.is_closed,
        }
    }
}

/// What a row of candles stands for.
pub open spec fn bars(candles: Seq<Candle>) -> Seq<Bar> {
    candles.map_values(|c: Candle| c@)
}

impl Bar {
    /// The body's share of the range in percent, zero where there is no range.
    pub open spec fn body_pct(self) -> Option<int> {
        let range = o_magnitude(difference(self.high, self.low));
        let body = o_magnitude(difference(self.close, self.open));
        match range {
            None => None,
            Some(r) => if r == 0 {
                Some(0)
            } else {
                o_product(
                    o_quotient(body, range),
                    Some(dec(100, 0)),
                )
            },
        }
    }
}

impl Candle {
    /// Percentage body size relative to candle range (0–100).  `None` where a
    /// step leaves the decimal range.
    pub fn body_pct(&self) -> (r: Option<Decimal>)
        ensures
            val(r) == self@.body_pct(),
    {
        let range = try_abs(self.high.0.checked_sub(self.low.0));
        let body = try_abs(self.close.0.checked_sub(self.open.0));
        match range {
            None => None,
            Some(w) => if w.is_zero() {
                Some(Decimal::zero())
            } else {
                try_product(try_quotient(body, range), Some(Decimal::new(100, 0)))
            },
        }
    }

    pub fn is_bullish(&self) -> (r: bool)
        ensures
            r == (self.close@ > self.open@),
    {
        self.open.0.less(self.close.0)
    }

    pub fn is_bearish(&self) -> (r: bool)
        ensures
            r == (self.close@ < self.open@),
    {
        self.close.0.less(self.open.0)
    }
}

// ── Kline interval ────────────────────────────────────────────────

#[derive(Debug, Clone, Copy, PartialEq, Eq, Structural)]
pub enum Interval {
    OneMinute,
    FiveMinutes,
    FifteenMinutes,
    OneHour,
    FourHours,
    OneDay,
}

impl Interval {
    pub open spec fn text(self) -> Seq<char> {
        match self {
            Interval::OneMinute => "1m"@,
            Interval::FiveMinutes => "5m"@,
            Interval::FifteenMinutes => "15m"@,
            Interval::OneHour => "1h"@,
            Interval::FourHours => "4h"@,
            Interval::OneDay => "1d"@,
        }
    }

    pub fn to_string(&self) -> (r: String)
        ensures
            r@ == self.text(),
    {
        match self {
            Interval::OneMinute => "1m".to_owned(),
            Interval::FiveMinutes => "5m".to_owned(),
            Interval::FifteenMinutes => "15m".to_owned(),
            Interval::OneHour => "1h".to_owned(),
            Interval::FourHours => "4h".to_owned(),
            Interval::OneDay => "1d".to_owned(),
        }
    }
}

// ── Trade signal ──────────────────────────────────────────────────

#[derive(Debug, Clone, Copy, PartialEq, Eq, Structural)]
pub enum Direction {
    Long,
    Short,
}

impl Direction {
    pub open spec fn text(self) -> Seq<char> {
        match self {
            Direction::Long => "LONG"@,
            Direction::Short => "SHORT"@,
        }
    }

    pub open spec fn name(self) -> Seq<char> {
        match self {
            Direction::Long => "Long"@,
            Direction::Short => "Short"@,
        }
    }

    pub fn to_string(&self) -> (r: String)
        ensures
            r@ == self.text(),
    {
        match self {
            Direction::Long => "LONG".to_owned(),
            Direction::Short => "SHORT".to_owned(),
        }
    }

    /// The variant's name, as reasons spell it.
    pub fn label(&self) -> (r: &'static str)
        ensures
            r@ == self.name(),
    {
        match self {
            Direction::Long => "Long",
            Direction::Short => "Short",
        }
    }
}

#[derive(Debug, Clone, Copy, PartialEq, Eq, Structural)]
pub enum SetupKind {
    OrderBlockBounce,
    FairValueGapFill,
    BreakOfStructure,
    ChangeOfCharacter,
    LiquiditySweepReversal,
    RsiDivergence,
    VolumeBreakout,
}

impl SetupKind {
    pub open spec fn text(self) -> Seq<char> {
        match self {
            SetupKind::OrderBlockBounce => "Order Block Bounce"@,
            SetupKind::FairValueGapFill => "FVG Fill"@,
            SetupKind::BreakOfStructure => "Break of Structure"@,
            SetupKind::ChangeOfCharacter => "Change of Character"@,
            SetupKind::LiquiditySweepReversal => "Liquidity Sweep"@,
            SetupKind::RsiDivergence => "RSI Divergence"@,
            SetupKind::VolumeBreakout => "Volume Breakout"@,
        }
    }

    pub fn to_string(&self) -> (r: String)
        ensures
            r@ == self.text(),
    {
        match self {
            SetupKind::OrderBlockBounce => "Order Block Bounce".to_owned(),
            SetupKind::FairValueGapFill => "FVG Fill".to_owned(),
            SetupKind::BreakOfStructure => "Break of Structure".to_owned(),
            SetupKind::ChangeOfCharacter => "Change of Character".to_owned(),
            SetupKind::LiquiditySweepReversal => "Liquidity Sweep".to_owned(),
            SetupKind::RsiDivergence => "RSI Divergence".to_owned(),
            SetupKind::VolumeBreakout => "Volume Breakout".to_owned(),
        }
    }
}

/// A fully-formed trade signal ready for execution or paper-recording.
#[derive(Debug, Clone)]
pub struct Signal {
    pub id: u128,
    pub symbol: Symbol,
    pub direction: Direction,
    pub kind: SetupKind,
    pub entry: Price,
    pub take_profit: Price,
    pub stop_loss: Price,
    pub risk_reward: Decimal,
    /// 0 to 1.
    pub confidence: Decimal,
    /// Kelly-computed position size.
    pub size_usd: Decimal,
    pub reasons: Vec<String>,
    pub created_at: i64,
}

/// What a signal says: all of it but its id and its time.
pub struct Idea {
    pub symbol: Seq<char>,
    pub direction: Direction,
    pub kind: SetupKind,
    pub entry: int,
    pub take_profit: int,
    pub stop_loss: int,
    pub risk_reward: int,
    pub confidence: int,
    pub size_usd: int,
    pub reasons: Seq<Seq<char>>,
}

impl Signal {
    pub open spec fn idea(self) -> Idea {
        Idea {
            symbol: self.symbol@,
            direction: self.direction,
            kind: self.kind,
            entry: self.entry@,
            take_profit: self.take_profit@,
            stop_loss: self.stop_loss@,
            risk_reward: self.risk_reward@,
            confidence: self.confidence@,
            size_usd: self.size_usd@,
            reasons: texts(self.reasons@),
        }
    }
}

/// The distance from `entry` to `level` in percent of `entry`, zero where
/// `entry` is zero.
pub open spec fn distance_pct(entry: int, level: Option<int>) -> Option<int> {
    if entry == 0 {
        Some(0)
    } else {
        o_product(
            o_quotient(o_magnitude(level), Some(entry)),
            Some(dec(100, 0)),
        )
    }
}

fn distance_of(entry: Decimal, level: Option<Decimal>) -> (r: Option<Decimal>)
    ensures
        val(r) == distance_pct(entry@, val(level)),
{
    if entry.is_zero() {
        Some(Decimal::zero())
    } else {
        try_product(try_quotient(try_abs(level), Some(entry)), Some(Decimal::new(100, 0)))
    }
}

impl Signal {
    /// The distance to the stop in percent of the entry.  `None` where a step
    /// leaves the decimal range.
    pub fn risk_pct(&self) -> (r: Option<Decimal>)
        ensures
            val(r) == distance_pct(
                self.entry@,
                difference(self.entry@, self.stop_loss@),
            ),
    {
        distance_of(self.entry.0, self.entry.0.checked_sub(self.stop_loss.0))
    }

    /// The distance to the target in percent of the entry.  `None` where a
    /// step leaves the decimal range.
    pub fn reward_pct(&self) -> (r: Option<Decimal>)
        ensures
            val(r) == distance_pct(
                self.entry@,
                difference(self.take_profit@, self.entry@),
            ),
    {
        distance_of(self.entry.0, self.take_profit.0.checked_sub(self.entry.0))
    }
}

// ── Trade outcome ─────────────────────────────────────────────────

#[derive(Debug, Clone, Copy, PartialEq, Eq, Structural)]
pub enum Outcome {
    Open,
    Win,
    Loss,
}

impl Outcome {
    pub open spec fn text(self) -> Seq<char> {
        match self {
            Outcome::Open => "OPEN"@,
            Outcome::Win => "WIN"@,
            Outcome::Loss => "LOSS"@,
        }
    }

    pub fn to_string(&self) -> (r: String)
        ensures
            r@ == self.text(),
    {
        match self {
            Outcome::Open => "OPEN".to_owned(),
            Outcome::Win => "WIN".to_owned(),
            Outcome::Loss => "LOSS".to_owned(),
        }
    }
}

/// A closed (or still-open) paper/live trade record.
#[derive(Debug, Clone)]
pub struct TradeRecord {
    pub signal: Signal,
    pub outcome: Outcome,
    pub exit_price: Option<Price>,
    pub pnl_usd: Option<Decimal>,
    pub closed_at: Option<i64>,
}

// ── Performance metrics ───────────────────────────────────────────

#[derive(Debug, Clone, Copy)]
pub struct Metrics {
    pub total: usize,
    pub wins: usize,
    pub losses: usize,
    pub win_rate: Decimal,
    pub avg_win_usd: Decimal,
    pub avg_loss_usd: Decimal,
    pub profit_factor: Decimal,
    pub total_pnl: Decimal,
    pub max_drawdown: Decimal,
    pub kelly_fraction: Decimal,
    pub capital: Decimal,
}

/// What the metrics stand for.
pub struct Figures {
    pub total: int,
    pub wins: int,
    pub losses: int,
    pub win_rate: int,
    pub avg_win_usd: int,
    pub avg_loss_usd: int,
    pub profit_factor: int,
    pub total_pnl: int,
    pub max_drawdown: int,
    pub kelly_fraction: int,
    pub capital: int,
}

impl View for Metrics {
    type V = Figures;

    open spec fn view(&self) -> Figures {
        Figures {
            total: self.total as int,
            wins: self.wins as int,
            losses: self.losses as int,
            win_rate: self.win_rate@,
            avg_win_usd: self.avg_win_usd@,
            avg_loss_usd: self.avg_loss_usd@,
            profit_factor: self.profit_factor@,
            total_pnl: self.total_pnl@,
            max_drawdown: self.max_drawdown@,
            kelly_fraction: self.kelly_fraction@,
            capital: self.capital@,
        }
    }
}

/// The grade of a win rate.
pub open spec fn grade_of(win_rate: int) -> Seq<char> {
    if win_rate >= dec(62, 2) {
        "A+"@
    } else if win_rate >= dec(56, 2) {
        "A"@
    } else if win_rate >= dec(52, 2) {
        "B"@
    } else if win_rate >= dec(50, 2) {
        "C"@
    } else {
        "D"@
    }
}

impl Default for Metrics {
    /// No trades.
    fn default() -> (r: Metrics)
        ensures
            r.total == 0 && r.wins == 0 && r.losses == 0,
            r.win_rate@ == 0 && r.avg_win_usd@ == 0 && r.avg_loss_usd@ == 0,
            r.profit_factor@ == 0 && r.total_pnl@ == 0 && r.max_drawdown@ == 0,
            r.kelly_fraction@ == 0 && r.capital@ == 0,
    {
        let z = Decimal::zero();
        Metrics {
            total: 0,
            wins: 0,
            losses: 0,
            win_rate: z,
            avg_win_usd: z,
            avg_loss_usd: z,
            profit_factor: z,
            total_pnl: z,
            max_drawdown: z,
            kelly_fraction: z,
            capital: z,
        }
    }
}

impl Metrics {
    pub fn grade(&self) -> (r: &'static str)
        ensures
            r@ == grade_of(self.win_rate@),
    {
        if Decimal::new(62, 2).at_most(self.win_rate) {
            "A+"
        } else if Decimal::new(56, 2).at_most(self.win_rate) {
            "A"
        } else if Decimal::new(52, 2).at_most(self.win_rate) {
            "B"
        } else if Decimal::new(50, 2).at_most(self.win_rate) {
            "C"
        } else {
            "D"
        }
    }
}

// ── Coin scan result ──────────────────────────────────────────────

#[derive(Debug, Clone)]
pub struct CoinScore {
    pub symbol: Symbol,
    pub composite: Decimal,
    pub volume_24h: Decimal,
    pub change_24h: Decimal,
    pub volatility: Decimal,
    pub smc_score: Decimal,
    pub trend_bullish: bool,
}

/// What a coin's score stands for.
pub struct Rated {
    pub symbol: Seq<char>,
    pub composite: int,
    pub volume_24h: int,
    pub change_24h: int,
    pub volatility: int,
    pub smc_score: int,
    pub trend_bullish: bool,
}

impl View for CoinScore {
    type V = Rated;

    open spec fn view(&self) -> Rated {
        Rated {
            symbol: self.symbol@,
            composite: self.composite@,
            volume_24h: self.volume_24h@,
            change_24h: self.change_24h@,
            volatility: self.volatility@,
            smc_score: self.smc_score@,
            trend_bullish: self.trend_bullish,
        }
    }
}

/// What a list of scores stands for.
pub open spec fn rated(s: Seq<CoinScore>) -> Seq<Rated> {
    s.map_values(|c: CoinScore| c@)
}

// ── Order request / result ────────────────────────────────────────

#[derive(Debug, Clone, Copy, PartialEq, Eq, Structural)]
pub enum OrderSide {
    Buy,
    Sell,
}

#[derive(Debug, Clone)]
pub struct OrderRequest {
    pub symbol: Symbol,
    pub side: OrderSide,
    /// Amount in quote currency (USDT).
    pub quote_qty: Decimal,
}

#[derive(Debug, Clone)]
pub struct OrderResult {
    pub order_id: String,
    pub symbol: Symbol,
    pub side: OrderSide,
    pub qty: Decimal,
    pub price: Price,
    pub status: String,
}

} // verus!
