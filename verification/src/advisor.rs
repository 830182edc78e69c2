//! Compares per-setup and per-symbol performance against known benchmarks, and
//! writes a prioritised list of **concrete, code-level improvements**, so that
//! the operator always knows exactly what to change to increase profitability.

use vstd::prelude::*;
use vstd::string::*;

use crate::decimal::{dec, one, product, share, Decimal};
use crate::indicators::{count, values};
use crate::ranking::{
    outranks, rank, ranked, ranking, ranking_is_stable_and_complete, the_smallest_stay_last,
};
use crate::store::{SetupStat, Stat, SymbolStat};
use crate::telegram::message;
use crate::text::{
    count_text, digits, fixed, fixed_text, join, joined, texts, unicode_upper, uppercase,
};
use crate::types::{grade_of, Figures, Metrics};

verus! {

// ── Priority levels ───────────────────────────────────────────────

#[derive(Debug, Clone, Copy, PartialEq, Eq, Structural)]
pub enum P {
    Critical,
    Important,
    Info,
}

impl P {
    pub open spec fn text(self) -> Seq<char> {
        match self {
            P::Critical => "🔴 CRITICAL"@,
            P::Important => "🟡 IMPORTANT"@,
            P::Info => "🟢 ENHANCE"@,
        }
    }

    pub fn badge(self) -> (r: &'static str)
        ensures
            r@ == self.text(),
    {
        match self {
            P::Critical => "🔴 CRITICAL",
            P::Important => "🟡 IMPORTANT",
            P::Info => "🟢 ENHANCE",
        }
    }

    /// The more urgent, the larger.
    pub open spec fn urgency(self) -> int {
        match self {
            P::Critical => 3,
            P::Important => 2,
            P::Info => 1,
        }
    }
}

#[derive(Debug)]
pub struct Tip {
    pub priority: P,
    pub tag: &'static str,
    pub body: String,
}

/// What a tip stands for.
pub struct Advice {
    pub priority: P,
    pub tag: Seq<char>,
    pub body: Seq<char>,
}

impl View for Tip {
    type V = Advice;

    open spec fn view(&self) -> Advice {
        Advice { priority: self.priority, tag: self.tag@, body: self.body@ }
    }
}

pub open spec fn advice(s: Seq<Tip>) -> Seq<Advice> {
    s.map_values(|t: Tip| t@)
}

/// One tip, where its text is there.
pub open spec fn tip(priority: P, tag: Seq<char>, body: Option<Seq<char>>) -> Option<Seq<Advice>> {
    match body {
        Some(body) => Some(seq![Advice { priority, tag, body }]),
        None => None,
    }
}

/// Two lots of tips, where both are there.
pub open spec fn with(a: Option<Seq<Advice>>, b: Option<Seq<Advice>>) -> Option<Seq<Advice>> {
    match (a, b) {
        (Some(x), Some(y)) => Some(x + y),
        _ => None,
    }
}

fn add_tip(tips: &mut Vec<Tip>, priority: P, tag: &'static str, body: Option<String>) -> (ok: bool)
    ensures
        match tip(priority, tag@, message(body)) {
            Some(s) => ok && advice(final(tips)@) == advice(old(tips)@) + s,
            None => !ok,
        },
{
    let ghost before = tips@;
    match body {
        Some(body) => {
            let t = Tip { priority, tag, body };
            tips.push(t);
            assert(advice(tips@) =~= advice(before) + seq![t@]);
            true
        },
        None => false,
    }
}

/// A text with a share in percent in it.
pub open spec fn around_pct(before: Seq<char>, x: int, dp: nat, after: Seq<char>) -> Option<
    Seq<char>,
> {
    match product(x, dec(100, 0)) {
        Some(pct) => Some(before + fixed(pct, dp) + after),
        None => None,
    }
}

fn pct_text(before: &str, x: Decimal, dp: u32, after: &str) -> (r: Option<String>)
    requires
        dp <= 28,
    ensures
        message(r) == around_pct(before@, x@, dp as nat, after@),
{
    match x.checked_mul(Decimal::new(100, 0)) {
        Some(pct) => {
            let mut r = before.to_owned();
            r.append(fixed_text(pct, dp).as_str());
            r.append(after);
            Some(r)
        },
        None => None,
    }
}

// ── Tips on the metrics ───────────────────────────────────────────

/// A. Data volume.
pub open spec fn data_tips(m: Figures) -> Option<Seq<Advice>> {
    if m.total < 10 {
        tip(
            P::Critical,
            "DATA"@,
            Some(
                "Only "@ + digits(m.total)
                    + " trades recorded. Need ≥50 for reliable statistics. Keep paper mode running — do not switch to live yet."@,
            ),
        )
    } else if m.total < 30 {
        tip(
            P::Important,
            "DATA"@,
            Some(
                digits(m.total) + "/50 trades complete. Results will stabilise around 50."@,
            ),
        )
    } else {
        Some(seq![])
    }
}

fn add_data_tips(tips: &mut Vec<Tip>, m: &Metrics) -> (ok: bool)
    ensures
        match data_tips(m@) {
            Some(s) => ok && advice(final(tips)@) == advice(old(tips)@) + s,
            None => !ok,
        },
{
    assert(advice(tips@) =~= advice(tips@) + seq![]);
    if m.total < 10 {
        let mut body = "Only ".to_owned();
        body.append(count_text(m.total).as_str());
        body.append(
            " trades recorded. Need ≥50 for reliable statistics. Keep paper mode running — do not switch to live yet.",
        );
        add_tip(tips, P::Critical, "DATA", Some(body))
    } else if m.total < 30 {
        let mut body = count_text(m.total);
        body.append("/50 trades complete. Results will stabilise around 50.");
        add_tip(tips, P::Important, "DATA", Some(body))
    } else {
        true
    }
}

/// B. Win rate.
pub open spec fn win_rate_tips(m: Figures) -> Option<Seq<Advice>> {
    if m.total < 10 {
        Some(seq![])
    } else if m.win_rate < dec(42, 2) {
        tip(
            P::Critical,
            "WIN RATE"@,
            around_pct(
                "Win rate "@,
                m.win_rate,
                1,
                "% is critically low. Raise `min_confidence` from 0.76 → 0.83 in your .env. Also add a 4H EMA trend filter: skip Long signals when 4H EMA20 < EMA50."@,
            ),
        )
    } else if m.win_rate < dec(50, 2) {
        tip(
            P::Important,
            "WIN RATE"@,
            around_pct(
                "Win rate "@,
                m.win_rate,
                1,
                "% is below breakeven. Raise `min_risk_reward` from 2.0 → 2.5 in your .env to filter out lower-quality setups."@,
            ),
        )
    } else if m.win_rate >= dec(62, 2) {
        tip(
            P::Info,
            "WIN RATE"@,
            around_pct(
                "Win rate "@,
                m.win_rate,
                1,
                "% is excellent. Consider lowering `min_confidence` by 0.02 to capture more signals without meaningfully hurting quality."@,
            ),
        )
    } else {
        Some(seq![])
    }
}

fn add_win_rate_tips(tips: &mut Vec<Tip>, m: &Metrics) -> (ok: bool)
    ensures
        match win_rate_tips(m@) {
            Some(s) => ok && advice(final(tips)@) == advice(old(tips)@) + s,
            None => !ok,
        },
{
    assert(advice(tips@) =~= advice(tips@) + seq![]);
    if m.total < 10 {
        return true;
    }
    let wr = m.win_rate;
    if wr.less(Decimal::new(42, 2)) {
        let body = pct_text(
            "Win rate ",
            wr,
            1,
            "% is critically low. Raise `min_confidence` from 0.76 → 0.83 in your .env. Also add a 4H EMA trend filter: skip Long signals when 4H EMA20 < EMA50.",
        );
        add_tip(tips, P::Critical, "WIN RATE", body)
    } else if wr.less(Decimal::new(50, 2)) {
        let body = pct_text(
            "Win rate ",
            wr,
            1,
            "% is below breakeven. Raise `min_risk_reward` from 2.0 → 2.5 in your .env to filter out lower-quality setups.",
        );
        add_tip(tips, P::Important, "WIN RATE", body)
    } else if Decimal::new(62, 2).at_most(wr) {
        let body = pct_text(
            "Win rate ",
            wr,
            1,
            "% is excellent. Consider lowering `min_confidence` by 0.02 to capture more signals without meaningfully hurting quality.",
        );
        add_tip(tips, P::Info, "WIN RATE", body)
    } else {
        true
    }
}

/// C. Profit factor & exits.
pub open spec fn factor_tips(m: Figures) -> Option<Seq<Advice>> {
    if m.total < 10 {
        Some(seq![])
    } else if m.profit_factor < one() {
        tip(
            P::Critical,
            "EXITS"@,
            Some(
                "Profit factor "@ + fixed(m.profit_factor, 2)
                    + " — bot is net losing. Avg win $"@ + fixed(m.avg_win_usd, 4)
                    + " vs avg loss $"@ + fixed(m.avg_loss_usd, 4)
                    + ". Widen TP: change `atr * 3.2` → `atr * 4.0` in bot_signals/src/lib.rs for all Long setups."@,
            ),
        )
    } else if m.profit_factor < dec(14, 1) {
        tip(
            P::Important,
            "EXITS"@,
            Some(
                "Profit factor "@ + fixed(m.profit_factor, 2)
                    + " is marginal (need ≥1.5). Implement a breakeven stop: once price moves +1R in your favour, move SL to entry. Add this logic to `LearningEngine::evaluate_open`."@,
            ),
        )
    } else {
        Some(seq![])
    }
}

fn add_factor_tips(tips: &mut Vec<Tip>, m: &Metrics) -> (ok: bool)
    ensures
        match factor_tips(m@) {
            Some(s) => ok && advice(final(tips)@) == advice(old(tips)@) + s,
            None => !ok,
        },
{
    assert(advice(tips@) =~= advice(tips@) + seq![]);
    if m.total < 10 {
        return true;
    }
    if m.profit_factor.less(Decimal::one()) {
        let mut body = "Profit factor ".to_owned();
        body.append(fixed_text(m.profit_factor, 2).as_str());
        body.append(" — bot is net losing. Avg win $");
        body.append(fixed_text(m.avg_win_usd, 4).as_str());
        body.append(" vs avg loss $");
        body.append(fixed_text(m.avg_loss_usd, 4).as_str());
        body.append(
            ". Widen TP: change `atr * 3.2` → `atr * 4.0` in bot_signals/src/lib.rs for all Long setups.",
        );
        add_tip(tips, P::Critical, "EXITS", Some(body))
    } else if m.profit_factor.less(Decimal::new(14, 1)) {
        let mut body = "Profit factor ".to_owned();
        body.append(fixed_text(m.profit_factor, 2).as_str());
        body.append(
            " is marginal (need ≥1.5). Implement a breakeven stop: once price moves +1R in your favour, move SL to entry. Add this logic to `LearningEngine::evaluate_open`.",
        );
        add_tip(tips, P::Important, "EXITS", Some(body))
    } else {
        true
    }
}

/// C. Losses that are too close to the wins.
pub open spec fn stop_tips(m: Figures) -> Option<Seq<Advice>> {
    if m.total < 10 {
        Some(seq![])
    } else {
        match product(m.avg_win_usd, dec(80, 2)) {
            None => None,
            Some(most) => if m.avg_loss_usd > most {
                tip(
                    P::Important,
                    "SL SIZE"@,
                    Some(
                        "Avg loss $"@ + fixed(m.avg_loss_usd, 4) + " is too close to avg win $"@
                            + fixed(m.avg_win_usd, 4)
                            + ". Your SL multiplier may be too wide. Try changing `sl_mult` from 1.5 → 1.0 × ATR and `tp_mult` from 3.0 → 3.5 × ATR."@,
                    ),
                )
            } else {
                Some(seq![])
            },
        }
    }
}

fn add_stop_tips(tips: &mut Vec<Tip>, m: &Metrics) -> (ok: bool)
    ensures
        match stop_tips(m@) {
            Some(s) => ok && advice(final(tips)@) == advice(old(tips)@) + s,
            None => !ok,
        },
{
    assert(advice(tips@) =~= advice(tips@) + seq![]);
    if m.total < 10 {
        return true;
    }
    let most = match m.avg_win_usd.checked_mul(Decimal::new(80, 2)) {
        Some(x) => x,
        None => {
            return false;
        },
    };
    if !most.less(m.avg_loss_usd) {
        return true;
    }
    let mut body = "Avg loss $".to_owned();
    body.append(fixed_text(m.avg_loss_usd, 4).as_str());
    body.append(" is too close to avg win $");
    body.append(fixed_text(m.avg_win_usd, 4).as_str());
    body.append(
        ". Your SL multiplier may be too wide. Try changing `sl_mult` from 1.5 → 1.0 × ATR and `tp_mult` from 3.0 → 3.5 × ATR.",
    );
    add_tip(tips, P::Important, "SL SIZE", Some(body))
}

/// D. Drawdown.
pub open spec fn drawdown_tips(m: Figures) -> Option<Seq<Advice>> {
    if m.max_drawdown > dec(12, 2) {
        tip(
            P::Critical,
            "DRAWDOWN"@,
            around_pct(
                "Max drawdown "@,
                m.max_drawdown,
                1,
                "% is dangerously high. Set MAX_DAILY_LOSS_PCT=0.03 and MAX_TRADE_SIZE_PCT=0.05 in your .env immediately."@,
            ),
        )
    } else if m.max_drawdown > dec(7, 2) {
        tip(
            P::Important,
            "DRAWDOWN"@,
            around_pct(
                "Drawdown "@,
                m.max_drawdown,
                1,
                "% is elevated. Add a consecutive-loss breaker: pause 2 hours after 3 losses in a row. Track `consecutive_losses: u32` in RiskManager."@,
            ),
        )
    } else {
        Some(seq![])
    }
}

fn add_drawdown_tips(tips: &mut Vec<Tip>, m: &Metrics) -> (ok: bool)
    ensures
        match drawdown_tips(m@) {
            Some(s) => ok && advice(final(tips)@) == advice(old(tips)@) + s,
            None => !ok,
        },
{
    assert(advice(tips@) =~= advice(tips@) + seq![]);
    let dd = m.max_drawdown;
    if Decimal::new(12, 2).less(dd) {
        let body = pct_text(
            "Max drawdown ",
            dd,
            1,
            "% is dangerously high. Set MAX_DAILY_LOSS_PCT=0.03 and MAX_TRADE_SIZE_PCT=0.05 in your .env immediately.",
        );
        add_tip(tips, P::Critical, "DRAWDOWN", body)
    } else if Decimal::new(7, 2).less(dd) {
        let body = pct_text(
            "Drawdown ",
            dd,
            1,
            "% is elevated. Add a consecutive-loss breaker: pause 2 hours after 3 losses in a row. Track `consecutive_losses: u32` in RiskManager.",
        );
        add_tip(tips, P::Important, "DRAWDOWN", body)
    } else {
        true
    }
}

/// E. Kelly sizing.
pub open spec fn kelly_tips(m: Figures) -> Option<Seq<Advice>> {
    if m.total < 20 {
        Some(seq![])
    } else if m.kelly_fraction < dec(2, 2) {
        tip(
            P::Important,
            "KELLY"@,
            Some(
                "Kelly fraction < 2% — edge is too thin to size up. Focus on improving win-rate first. Do NOT increase KELLY_FRACTION manually until WR ≥ 54%."@,
            ),
        )
    } else if m.kelly_fraction >= dec(8, 2) {
        tip(
            P::Info,
            "KELLY"@,
            around_pct(
                "Kelly fraction "@,
                m.kelly_fraction,
                1,
                "% is strong. You are compounding near-optimally. Keep KELLY_FRACTION=0.25 (quarter-Kelly) for safety — this is already the right setting."@,
            ),
        )
    } else {
        Some(seq![])
    }
}

fn add_kelly_tips(tips: &mut Vec<Tip>, m: &Metrics) -> (ok: bool)
    ensures
        match kelly_tips(m@) {
            Some(s) => ok && advice(final(tips)@) == advice(old(tips)@) + s,
            None => !ok,
        },
{
    assert(advice(tips@) =~= advice(tips@) + seq![]);
    if m.total < 20 {
        return true;
    }
    let k = m.kelly_fraction;
    if k.less(Decimal::new(2, 2)) {
        let body =
            "Kelly fraction < 2% — edge is too thin to size up. Focus on improving win-rate first. Do NOT increase KELLY_FRACTION manually until WR ≥ 54%.".to_owned();
        add_tip(tips, P::Important, "KELLY", Some(body))
    } else if Decimal::new(8, 2).at_most(k) {
        let body = pct_text(
            "Kelly fraction ",
            k,
            1,
            "% is strong. You are compounding near-optimally. Keep KELLY_FRACTION=0.25 (quarter-Kelly) for safety — this is already the right setting.",
        );
        add_tip(tips, P::Info, "KELLY", body)
    } else {
        true
    }
}

// ── F. Per-setup analysis ─────────────────────────────────────────

/// The first `n` characters of a text, without its spaces.
pub open spec fn unspaced(s: Seq<char>, n: int) -> Seq<char>
    decreases n,
{
    if n <= 0 {
        seq![]
    } else if s[n - 1] == ' ' {
        unspaced(s, n - 1)
    } else {
        unspaced(s, n - 1).push(s[n - 1])
    }
}

fn without_spaces(s: &str) -> (r: String)
    ensures
        r@ == unspaced(s@, s@.len() as int),
{
    let n = s.unicode_len();
    let mut r = String::new();
    let mut i: usize = 0;
    assert(r@ =~= seq![]);
    while i < n
        invariant
            i <= n == s@.len(),
            r@ == unspaced(s@, i as int),
        decreases n - i,
    {
        if s.get_char(i) != ' ' {
            let ghost before = r@;
            r.append(s.substring_char(i, i + 1));
            assert(r@ =~= before.push(s@[i as int]));
        }
        i = i + 1;
    }
    r
}

/// The tip on one setup.
pub open spec fn setup_tip(s: Stat) -> Option<Seq<Advice>> {
    let wr = share(s.wins, s.total);
    if s.total < 5 {
        Some(seq![])
    } else if wr < dec(38, 2) {
        tip(
            P::Important,
            "SETUP"@,
            match product(wr, dec(100, 0)) {
                Some(pct) => Some(
                    "'"@ + s.key + "' win rate is only "@ + fixed(pct, 0) + "% ("@ + digits(s.wins)
                        + "/"@ + digits(s.total) + " trades, PnL $"@ + fixed(s.total_pnl, 4)
                        + "). Disable it: add `&& s.kind != SetupKind::"@ + unspaced(
                        s.key,
                        s.key.len() as int,
                    ) + "` to the `signals.retain` filter in bot_signals/src/lib.rs."@,
                ),
                None => None,
            },
        )
    } else if wr > dec(68, 2) && s.total >= 8 {
        tip(
            P::Info,
            "SETUP"@,
            match product(wr, dec(100, 0)) {
                Some(pct) => Some(
                    "'"@ + s.key + "' win rate is "@ + fixed(pct, 0)
                        + "% — your best setup! Lower its min_confidence by 0.03 to get more of these."@,
                ),
                None => None,
            },
        )
    } else {
        Some(seq![])
    }
}

/// The tips on the first `n` setups.
pub open spec fn setup_tips(s: Seq<Stat>, n: int) -> Option<Seq<Advice>>
    decreases n,
{
    if n <= 0 {
        Some(seq![])
    } else {
        with(setup_tips(s, n - 1), setup_tip(s[n - 1]))
    }
}

fn add_setup_tip(tips: &mut Vec<Tip>, s: &SetupStat) -> (ok: bool)
    ensures
        match setup_tip(s@) {
            Some(a) => ok && advice(final(tips)@) == advice(old(tips)@) + a,
            None => !ok,
        },
{
    assert(advice(tips@) =~= advice(tips@) + seq![]);
    if s.total < 5 {
        return true;
    }
    let wr = s.win_rate();
    let pct = wr.checked_mul(Decimal::new(100, 0));
    if wr.less(Decimal::new(38, 2)) {
        let body = match pct {
            Some(pct) => {
                let mut b = "'".to_owned();
                b.append(s.kind.as_str());
                b.append("' win rate is only ");
                b.append(fixed_text(pct, 0).as_str());
                b.append("% (");
                b.append(count_text(s.wins).as_str());
                b.append("/");
                b.append(count_text(s.total).as_str());
                b.append(" trades, PnL $");
                b.append(fixed_text(s.total_pnl, 4).as_str());
                b.append("). Disable it: add `&& s.kind != SetupKind::");
                b.append(without_spaces(s.kind.as_str()).as_str());
                b.append("` to the `signals.retain` filter in bot_signals/src/lib.rs.");
                Some(b)
            },
            None => None,
        };
        add_tip(tips, P::Important, "SETUP", body)
    } else if Decimal::new(68, 2).less(wr) && s.total >= 8 {
        let body = match pct {
            Some(pct) => {
                let mut b = "'".to_owned();
                b.append(s.kind.as_str());
                b.append("' win rate is ");
                b.append(fixed_text(pct, 0).as_str());
                b.append(
                    "% — your best setup! Lower its min_confidence by 0.03 to get more of these.",
                );
                Some(b)
            },
            None => None,
        };
        add_tip(tips, P::Info, "SETUP", body)
    } else {
        true
    }
}

proof fn lemma_setups_fail(s: Seq<Stat>, i: int, j: int)
    requires
        i <= j,
        setup_tips(s, i) is None,
    ensures
        setup_tips(s, j) is None,
    decreases j - i,
{
    if i < j {
        lemma_setups_fail(s, i, j - 1);
    }
}

pub open spec fn setup_views(s: Seq<SetupStat>) -> Seq<Stat> {
    s.map_values(|x: SetupStat| x@)
}

pub open spec fn symbol_views(s: Seq<SymbolStat>) -> Seq<Stat> {
    s.map_values(|x: SymbolStat| x@)
}

fn add_setup_tips(tips: &mut Vec<Tip>, setups: &[SetupStat]) -> (ok: bool)
    ensures
        match setup_tips(setup_views(setups@), setups@.len() as int) {
            Some(a) => ok && advice(final(tips)@) == advice(old(tips)@) + a,
            None => !ok,
        },
{
    let ghost before = advice(tips@);
    let ghost all = setup_views(setups@);
    let mut i: usize = 0;
    assert(advice(tips@) =~= before + seq![]);
    while i < setups.len()
        invariant
            i <= setups@.len() == all.len(),
            all == setup_views(setups@),
            setup_tips(all, i as int) is Some,
            advice(tips@) == before + setup_tips(all, i as int)->0,
        decreases setups@.len() - i,
    {
        let ghost done = setup_tips(all, i as int)->0;
        assert(all[i as int] == setups@[i as int]@);
        if !add_setup_tip(tips, &setups[i]) {
            proof {
                lemma_setups_fail(all, i + 1, all.len() as int);
            }
            return false;
        }
        proof {
            let new = setup_tip(all[i as int])->0;
            assert(advice(tips@) =~= before + (done + new));
        }
        i = i + 1;
    }
    true
}

// ── G. Per-symbol analysis ────────────────────────────────────────

/// Has a symbol enough trades, and lost most of them?
pub open spec fn is_bad(s: Stat) -> bool {
    s.total >= 4 && share(s.wins, s.total) < dec(38, 2)
}

/// Has a symbol enough trades, and won most of them?
pub open spec fn is_good(s: Stat) -> bool {
    s.total >= 4 && share(s.wins, s.total) >= dec(65, 2)
}

/// The bad (or, where `bad` is false, the good) ones of the first `n` symbols.
pub open spec fn picked(s: Seq<Stat>, bad: bool, n: int) -> Seq<Stat>
    decreases n,
{
    if n <= 0 {
        seq![]
    } else if (bad && is_bad(s[n - 1])) || (!bad && is_good(s[n - 1])) {
        picked(s, bad, n - 1).push(s[n - 1])
    } else {
        picked(s, bad, n - 1)
    }
}

/// The worst first.
pub open spec fn worst_first(s: Seq<Stat>) -> Seq<Stat> {
    ranked(s, s.map_values(|x: Stat| -share(x.wins, x.total)))
}

/// A symbol in a list of bad or good ones.
pub open spec fn symbol_words(s: Stat, bad: bool) -> Option<Seq<char>> {
    match product(share(s.wins, s.total), dec(100, 0)) {
        Some(pct) => Some(
            if bad {
                unicode_upper(s.key) + " ("@ + fixed(pct, 0) + "%WR)"@
            } else {
                unicode_upper(s.key) + " ("@ + fixed(pct, 0) + "%WR, +$"@ + fixed(s.total_pnl, 3)
                    + ")"@
            },
        ),
        None => None,
    }
}

/// The first `n` symbols of a list, in words.
pub open spec fn symbol_list(s: Seq<Stat>, bad: bool, n: int) -> Option<Seq<Seq<char>>>
    decreases n,
{
    if n <= 0 {
        Some(seq![])
    } else {
        match (symbol_list(s, bad, n - 1), symbol_words(s[n - 1], bad)) {
            (Some(l), Some(w)) => Some(l.push(w)),
            _ => None,
        }
    }
}

/// At most four symbols, in words.
pub open spec fn first_four(s: Seq<Stat>, bad: bool) -> Option<Seq<char>> {
    let n: int = if s.len() < 4 {
        s.len() as int
    } else {
        4
    };
    match symbol_list(s, bad, n) {
        Some(l) => Some(joined(l, ", "@, n)),
        None => None,
    }
}

/// The tip on the symbols that lose.
pub open spec fn bad_tips(syms: Seq<Stat>) -> Option<Seq<Advice>> {
    let bad = picked(syms, true, syms.len() as int);
    if bad.len() == 0 {
        Some(seq![])
    } else {
        tip(
            P::Important,
            "COINS"@,
            match first_four(worst_first(bad), true) {
                Some(list) => Some(
                    "Underperformers: "@ + list
                        + ". Remove them from watchlist or add a per-symbol min-confidence override of 0.88 in the scanner."@,
                ),
                None => None,
            },
        )
    }
}

/// The tip on the symbols that win.
pub open spec fn good_tips(syms: Seq<Stat>) -> Option<Seq<Advice>> {
    let good = picked(syms, false, syms.len() as int);
    if good.len() == 0 {
        Some(seq![])
    } else {
        tip(
            P::Info,
            "COINS"@,
            match first_four(good, false) {
                Some(list) => Some(
                    "Top performers: "@ + list
                        + ". Prioritise these — lower their min_composite_score in the scanner by 0.05."@,
                ),
                None => None,
            },
        )
    }
}

pub open spec fn referred(s: Seq<&SymbolStat>) -> Seq<Stat> {
    s.map_values(|x: &SymbolStat| x@)
}

fn pick<'a>(syms: &'a [SymbolStat], bad: bool) -> (r: Vec<&'a SymbolStat>)
    ensures
        referred(r@) == picked(symbol_views(syms@), bad, syms@.len() as int),
{
    let ghost all = symbol_views(syms@);
    let mut out: Vec<&'a SymbolStat> = Vec::new();
    let mut i: usize = 0;
    assert(referred(out@) =~= seq![]);
    while i < syms.len()
        invariant
            i <= syms@.len(),
            all == symbol_views(syms@),
            referred(out@) == picked(all, bad, i as int),
        decreases syms@.len() - i,
    {
        let s = &syms[i];
        assert(all[i as int] == s@);
        let wr = s.win_rate();
        let take = s.total >= 4 && (if bad {
            wr.less(Decimal::new(38, 2))
        } else {
            Decimal::new(65, 2).at_most(wr)
        });
        if take {
            let ghost before = out@;
            out.push(s);
            assert(referred(out@) =~= referred(before).push(s@));
        }
        i = i + 1;
    }
    out
}

fn words_of(s: &SymbolStat, bad: bool) -> (r: Option<String>)
    ensures
        message(r) == symbol_words(s@, bad),
{
    match s.win_rate().checked_mul(Decimal::new(100, 0)) {
        Some(pct) => {
            let mut r = uppercase(s.symbol.as_str());
            r.append(" (");
            r.append(fixed_text(pct, 0).as_str());
            if bad {
                r.append("%WR)");
            } else {
                r.append("%WR, +$");
                r.append(fixed_text(s.total_pnl, 3).as_str());
                r.append(")");
            }
            Some(r)
        },
        None => None,
    }
}

proof fn lemma_list_fail(s: Seq<Stat>, bad: bool, i: int, j: int)
    requires
        i <= j,
        symbol_list(s, bad, i) is None,
    ensures
        symbol_list(s, bad, j) is None,
    decreases j - i,
{
    if i < j {
        lemma_list_fail(s, bad, i, j - 1);
    }
}

fn four_of(syms: &Vec<&SymbolStat>, bad: bool) -> (r: Option<String>)
    ensures
        message(r) == first_four(referred(syms@), bad),
{
    let ghost all = referred(syms@);
    let n: usize = if syms.len() < 4 {
        syms.len()
    } else {
        4
    };
    let mut list: Vec<String> = Vec::new();
    let mut i: usize = 0;
    assert(texts(list@) =~= seq![]);
    while i < n
        invariant
            i <= n <= syms@.len(),
            n == (if all.len() < 4 {
                all.len() as int
            } else {
                4
            }),
            all == referred(syms@),
            list@.len() == i,
            symbol_list(all, bad, i as int) == Some(texts(list@)),
        decreases n - i,
    {
        assert(all[i as int] == syms@[i as int]@);
        match words_of(syms[i], bad) {
            Some(w) => {
                let ghost before = list@;
                list.push(w);
                assert(texts(list@) =~= texts(before).push(w@));
            },
            None => {
                proof {
                    lemma_list_fail(all, bad, i + 1, n as int);
                }
                return None;
            },
        }
        i = i + 1;
    }
    Some(join(&list, ", "))
}

fn sort_worst_first<'a>(syms: Vec<&'a SymbolStat>) -> (r: Vec<&'a SymbolStat>)
    ensures
        referred(r@) == worst_first(referred(syms@)),
{
    let ghost all = syms@;
    let mut keys: Vec<Decimal> = Vec::new();
    let mut i: usize = 0;
    while i < syms.len()
        invariant
            i <= syms@.len(),
            keys@.len() == i,
            forall|j: int|
                0 <= j < i ==> (#[trigger] keys@[j])@ == -share(
                    syms@[j].wins as int,
                    syms@[j].total as int,
                ),
        decreases syms@.len() - i,
    {
        keys.push(syms[i].win_rate().negated());
        i = i + 1;
    }
    let ghost ks = referred(all).map_values(|x: Stat| -share(x.wins, x.total));
    assert(values(keys@) =~= ks);
    let out = rank(syms, keys);
    proof {
        ranking_is_stable_and_complete(ks);
        assert(referred(out@) =~= ranked(referred(all), ks));
    }
    out
}

fn add_bad_tips(tips: &mut Vec<Tip>, syms: &[SymbolStat]) -> (ok: bool)
    ensures
        match bad_tips(symbol_views(syms@)) {
            Some(a) => ok && advice(final(tips)@) == advice(old(tips)@) + a,
            None => !ok,
        },
{
    assert(advice(tips@) =~= advice(tips@) + seq![]);
    let bad = pick(syms, true);
    assert(referred(bad@).len() == bad@.len());
    if bad.len() == 0 {
        return true;
    }
    let sorted = sort_worst_first(bad);
    let body = match four_of(&sorted, true) {
        Some(list) => {
            let mut b = "Underperformers: ".to_owned();
            b.append(list.as_str());
            b.append(
                ". Remove them from watchlist or add a per-symbol min-confidence override of 0.88 in the scanner.",
            );
            Some(b)
        },
        None => None,
    };
    add_tip(tips, P::Important, "COINS", body)
}

fn add_good_tips(tips: &mut Vec<Tip>, syms: &[SymbolStat]) -> (ok: bool)
    ensures
        match good_tips(symbol_views(syms@)) {
            Some(a) => ok && advice(final(tips)@) == advice(old(tips)@) + a,
            None => !ok,
        },
{
    assert(advice(tips@) =~= advice(tips@) + seq![]);
    let good = pick(syms, false);
    assert(referred(good@).len() == good@.len());
    if good.len() == 0 {
        return true;
    }
    let body = match four_of(&good, false) {
        Some(list) => {
            let mut b = "Top performers: ".to_owned();
            b.append(list.as_str());
            b.append(
                ". Prioritise these — lower their min_composite_score in the scanner by 0.05.",
            );
            Some(b)
        },
        None => None,
    };
    add_tip(tips, P::Info, "COINS", body)
}

// ── H. Structural upgrades (always present) ───────────────────────

pub open spec fn upgrade(body: Seq<char>) -> Option<Seq<Advice>> {
    tip(P::Info, "UPGRADE"@, Some(body))
}

pub open spec fn upgrade_tips() -> Option<Seq<Advice>> {
    with(
        with(
            with(
                upgrade(
                    "Add a 4H trend gate: only take Long signals when 4H EMA20 > EMA50. Fetch 4H candles for each symbol in the main loop and pass a `trend_bullish_4h: bool` flag into `signals::evaluate()`."@,
                ),
                upgrade(
                    "Add session filter: best crypto moves occur during London (08–12 UTC) and New York (13–20 UTC) opens. Add `let h = Utc::now().hour(); if !(8..=20).contains(&h) { continue; }` at the top of the main loop."@,
                ),
            ),
            upgrade(
                "Add partial TP: close 40% of position at 1:1 R:R, then move SL to breakeven. This converts near-misses into small wins and boosts WR without changing your signal logic."@,
            ),
        ),
        upgrade(
            "Add a correlation guard: never hold Long BTC + Long ETH simultaneously. Track `active_longs: HashSet<Symbol>` in the Orchestrator and skip correlated pairs when one is already open."@,
        ),
    )
}

fn add_upgrade(tips: &mut Vec<Tip>, body: &str) -> (ok: bool)
    ensures
        ok,
        advice(final(tips)@) == advice(old(tips)@) + upgrade(body@)->0,
{
    add_tip(tips, P::Info, "UPGRADE", Some(body.to_owned()))
}

fn add_upgrade_tips(tips: &mut Vec<Tip>)
    ensures
        upgrade_tips() is Some,
        advice(final(tips)@) == advice(old(tips)@) + upgrade_tips()->0,
{
    let ghost before = advice(tips@);
    add_upgrade(
        tips,
        "Add a 4H trend gate: only take Long signals when 4H EMA20 > EMA50. Fetch 4H candles for each symbol in the main loop and pass a `trend_bullish_4h: bool` flag into `signals::evaluate()`.",
    );
    add_upgrade(
        tips,
        "Add session filter: best crypto moves occur during London (08–12 UTC) and New York (13–20 UTC) opens. Add `let h = Utc::now().hour(); if !(8..=20).contains(&h) { continue; }` at the top of the main loop.",
    );
    add_upgrade(
        tips,
        "Add partial TP: close 40% of position at 1:1 R:R, then move SL to breakeven. This converts near-misses into small wins and boosts WR without changing your signal logic.",
    );
    add_upgrade(
        tips,
        "Add a correlation guard: never hold Long BTC + Long ETH simultaneously. Track `active_longs: HashSet<Symbol>` in the Orchestrator and skip correlated pairs when one is already open.",
    );
    assert(advice(tips@) =~= before + upgrade_tips()->0);
}

// ── Tip generation ────────────────────────────────────────────────

/// All tips, in the order of their sections.
pub open spec fn all_tips(m: Figures, setups: Seq<Stat>, syms: Seq<Stat>) -> Option<Seq<Advice>> {
    with(
        with(
            with(
                with(
                    with(
                        with(
                            with(
                                with(
                                    with(data_tips(m), win_rate_tips(m)),
                                    factor_tips(m),
                                ),
                                stop_tips(m),
                            ),
                            drawdown_tips(m),
                        ),
                        kelly_tips(m),
                    ),
                    setup_tips(setups, setups.len() as int),
                ),
                bad_tips(syms),
            ),
            good_tips(syms),
        ),
        upgrade_tips(),
    )
}

/// The tips in the order of their priority, and within one priority of their
/// sections.
pub open spec fn by_priority(s: Seq<Advice>) -> Seq<Advice> {
    ranked(s, s.map_values(|a: Advice| count(a.priority.urgency())))
}

/// Writes the tips: critical first, then important, then the rest.  `None`
/// where a number leaves the decimal range.
pub fn build_tips(m: &Metrics, setups: &[SetupStat], syms: &[SymbolStat]) -> (r: Option<Vec<Tip>>)
    ensures
        match all_tips(m@, setup_views(setups@), symbol_views(syms@)) {
            Some(a) => r is Some && advice(r->0@) == by_priority(a),
            None => r is None,
        },
{
    let mut tips: Vec<Tip> = Vec::new();
    assert(advice(tips@) =~= seq![]);
    if !add_data_tips(&mut tips, m) {
        return None;
    }
    assert(advice(tips@) =~= data_tips(m@)->0);
    if !add_win_rate_tips(&mut tips, m) || !add_factor_tips(&mut tips, m) || !add_stop_tips(
        &mut tips,
        m,
    ) || !add_drawdown_tips(&mut tips, m) || !add_kelly_tips(&mut tips, m) {
        return None;
    }
    if !add_setup_tips(&mut tips, setups) || !add_bad_tips(&mut tips, syms) || !add_good_tips(
        &mut tips,
        syms,
    ) {
        return None;
    }
    add_upgrade_tips(&mut tips);
    let ghost all = tips@;
    let mut keys: Vec<Decimal> = Vec::new();
    let mut i: usize = 0;
    while i < tips.len()
        invariant
            i <= tips@.len(),
            keys@.len() == i,
            forall|j: int|
                0 <= j < i ==> (#[trigger] keys@[j])@ == count(tips@[j].priority.urgency()),
        decreases tips@.len() - i,
    {
        let k: usize = match tips[i].priority {
            P::Critical => 3,
            P::Important => 2,
            P::Info => 1,
        };
        keys.push(Decimal::from_count(k));
        i = i + 1;
    }
    let ghost ks = advice(all).map_values(|a: Advice| count(a.priority.urgency()));
    assert(values(keys@) =~= ks);
    let out = rank(tips, keys);
    proof {
        ranking_is_stable_and_complete(ks);
        assert(advice(out@) =~= ranked(advice(all), ks));
    }
    Some(out)
}

// ── Report formatting ─────────────────────────────────────────────

/// The first `n` tips, numbered.
pub open spec fn tip_lines(tips: Seq<Advice>, n: int) -> Seq<Seq<char>>
    decreases n,
{
    if n <= 0 {
        seq![]
    } else {
        let t = tips[n - 1];
        tip_lines(tips, n - 1).push(
            "\n"@ + t.priority.text() + " [<b>"@ + t.tag + "</b>] #"@ + digits(n) + "\n  ➤ "@
                + t.body,
        )
    }
}

pub open spec fn report_form(m: Figures, tips: Seq<Advice>, wr: int, dd: int, k: int) -> Seq<
    char,
> {
    let n: int = if tips.len() < 12 {
        tips.len() as int
    } else {
        12
    };
    "🤖 <b>SELF-IMPROVEMENT REPORT</b>\nGrade: <b>"@ + grade_of(m.win_rate) + "</b> | Trades: "@
        + digits(m.total) + " | Capital: $"@ + fixed(m.capital, 4)
        + "\n══════════════════════════════════════"@ + joined(tip_lines(tips, n), "\n"@, n)
        + "\n══════════════════════════════════════\n📈 WR:"@ + fixed(wr, 1) + "%  PF:"@ + fixed(
        m.profit_factor,
        2,
    ) + "×  DD:"@ + fixed(dd, 1) + "%  Kelly:"@ + fixed(k, 1)
        + "%\n🔄 Next analysis in 6 hours"@
}

/// The report of at most twelve tips.  `None` where a percentage leaves the
/// decimal range.
pub open spec fn report_of(m: Figures, tips: Seq<Advice>) -> Option<Seq<char>> {
    match (
        product(m.win_rate, dec(100, 0)),
        product(m.max_drawdown, dec(100, 0)),
        product(m.kelly_fraction, dec(100, 0)),
    ) {
        (Some(wr), Some(dd), Some(k)) => Some(report_form(m, tips, wr, dd, k)),
        _ => None,
    }
}

/// Writes the report.
pub fn report(m: &Metrics, tips: &[Tip]) -> (r: Option<String>)
    ensures
        message(r) == report_of(m@, advice(tips@)),
{
    let ghost all = advice(tips@);
    let hundred = Decimal::new(100, 0);
    let (wr, dd, k) = match (
        m.win_rate.checked_mul(hundred),
        m.max_drawdown.checked_mul(hundred),
        m.kelly_fraction.checked_mul(hundred),
    ) {
        (Some(wr), Some(dd), Some(k)) => (wr, dd, k),
        _ => {
            return None;
        },
    };
    let n: usize = if tips.len() < 12 {
        tips.len()
    } else {
        12
    };
    let mut lines: Vec<String> = Vec::new();
    let mut i: usize = 0;
    assert(texts(lines@) =~= seq![]);
    while i < n
        invariant
            i <= n <= tips@.len(),
            all == advice(tips@),
            lines@.len() == i,
            texts(lines@) == tip_lines(all, i as int),
        decreases n - i,
    {
        let t = &tips[i];
        assert(all[i as int] == t@);
        let mut line = "\n".to_owned();
        line.append(t.priority.badge());
        line.append(" [<b>");
        line.append(t.tag);
        line.append("</b>] #");
        line.append(count_text(i + 1).as_str());
        line.append("\n  ➤ ");
        line.append(t.body.as_str());
        let ghost before = lines@;
        lines.push(line);
        assert(texts(lines@) =~= texts(before).push(line@));
        i = i + 1;
    }
    let mut r = "🤖 <b>SELF-IMPROVEMENT REPORT</b>\nGrade: <b>".to_owned();
    r.append(m.grade());
    r.append("</b> | Trades: ");
    r.append(count_text(m.total).as_str());
    r.append(" | Capital: $");
    r.append(fixed_text(m.capital, 4).as_str());
    r.append("\n══════════════════════════════════════");
    r.append(join(&lines, "\n").as_str());
    r.append("\n══════════════════════════════════════\n📈 WR:");
    r.append(fixed_text(wr, 1).as_str());
    r.append("%  PF:");
    r.append(fixed_text(m.profit_factor, 2).as_str());
    r.append("×  DD:");
    r.append(fixed_text(dd, 1).as_str());
    r.append("%  Kelly:");
    r.append(fixed_text(k, 1).as_str());
    r.append("%\n🔄 Next analysis in 6 hours");
    Some(r)
}

// ── Laws ──────────────────────────────────────────────────────────

/// No tip comes after one that is less urgent, and sorting loses none.
pub proof fn tips_come_by_priority(s: Seq<Advice>)
    ensures
        by_priority(s).len() == s.len(),
        forall|i: int, j: int|
            0 <= i < j < s.len() ==> (#[trigger] by_priority(s)[i]).priority.urgency() >= (
            #[trigger] by_priority(s)[j]).priority.urgency(),
        forall|k: int| 0 <= k < s.len() ==> by_priority(s).contains(#[trigger] s[k]),
{
    let keys = s.map_values(|a: Advice| count(a.priority.urgency()));
    ranking_is_stable_and_complete(keys);
    let r = ranking(keys);
    let t = by_priority(s);
    assert forall|i: int, j: int| 0 <= i < j < s.len() implies (
    #[trigger] t[i]).priority.urgency() >= (#[trigger] t[j]).priority.urgency() by {
        assert(outranks(keys, r[i], r[j]));
        assert(t[i] == s[r[i]] && t[j] == s[r[j]]);
        let a = s[r[i]].priority.urgency();
        let b = s[r[j]].priority.urgency();
        assert(a * one() >= b * one());
        assert(a >= b) by (nonlinear_arith)
            requires
                a * one() >= b * one(),
                one() > 0,
        ;
    }
    assert forall|k: int| 0 <= k < s.len() implies t.contains(#[trigger] s[k]) by {
        assert(r.contains(k));
        let i = r.index_of(k);
        assert(t[i] == s[k]);
    }
}

/// The last four tips are always the four structural upgrades, so that there is
/// always something to suggest.
pub proof fn upgrades_come_last(m: Figures, setups: Seq<Stat>, syms: Seq<Stat>)
    ensures
        all_tips(m, setups, syms) matches Some(s) ==> {
            let t = by_priority(s);
            &&& t.len() == s.len() >= 4
            &&& upgrade_tips() == Some(t.subrange(t.len() - 4, t.len() as int))
        },
        upgrade_tips() matches Some(u) && u.len() == 4 && forall|i: int|
            0 <= i < 4 ==> (#[trigger] u[i]).priority == P::Info && u[i].tag == "UPGRADE"@,
{
    let u = upgrade_tips()->0;
    if let Some(s) = all_tips(m, setups, syms) {
        let n = s.len() as int;
        assert(s.subrange(n - 4, n) =~= u);
        let keys = s.map_values(|a: Advice| count(a.priority.urgency()));
        assert forall|x: int, y: int| 0 <= x < y < n && n - 4 <= y implies #[trigger] keys[x]
            >= #[trigger] keys[y] by {
            assert(s[y] == u[y - (n - 4)]);
            let a = s[x].priority.urgency();
            assert(a * one() >= 1 * one()) by (nonlinear_arith)
                requires
                    a >= 1,
                    one() > 0,
            ;
        }
        the_smallest_stay_last(keys, n - 4);
        ranking_is_stable_and_complete(keys);
        let t = by_priority(s);
        assert forall|p: int| n - 4 <= p < n implies #[trigger] t[p] == s[p] by {
            assert(ranking(keys)[p] == p);
        }
        assert(t.subrange(n - 4, n) =~= u);
    }
}

/// Those of the first `n` with at least `least` trades.
pub open spec fn traded(s: Seq<Stat>, least: int, n: int) -> Seq<Stat>
    decreases n,
{
    if n <= 0 {
        seq![]
    } else if s[n - 1].total >= least {
        traded(s, least, n - 1).push(s[n - 1])
    } else {
        traded(s, least, n - 1)
    }
}

proof fn lemma_setup_prefix(s: Seq<Stat>, x: Stat, n: int)
    requires
        n <= s.len(),
    ensures
        setup_tips(s.push(x), n) == setup_tips(s, n),
    decreases n,
{
    if n > 0 {
        lemma_setup_prefix(s, x, n - 1);
    }
}

proof fn lemma_picked_prefix(s: Seq<Stat>, x: Stat, bad: bool, n: int)
    requires
        n <= s.len(),
    ensures
        picked(s.push(x), bad, n) == picked(s, bad, n),
    decreases n,
{
    if n > 0 {
        lemma_picked_prefix(s, x, bad, n - 1);
    }
}

proof fn lemma_setups_traded(s: Seq<Stat>, n: int)
    ensures
        setup_tips(traded(s, 5, n), traded(s, 5, n).len() as int) == setup_tips(s, n),
    decreases n,
{
    if n > 0 {
        lemma_setups_traded(s, n - 1);
        let k = traded(s, 5, n - 1);
        if s[n - 1].total >= 5 {
            lemma_setup_prefix(k, s[n - 1], k.len() as int);
        } else if let Some(t) = setup_tips(s, n - 1) {
            assert(t + seq![] =~= t);
        }
    }
}

proof fn lemma_picked_traded(s: Seq<Stat>, bad: bool, n: int)
    ensures
        picked(traded(s, 4, n), bad, traded(s, 4, n).len() as int) == picked(s, bad, n),
    decreases n,
{
    if n > 0 {
        lemma_picked_traded(s, bad, n - 1);
        let k = traded(s, 4, n - 1);
        if s[n - 1].total >= 4 {
            lemma_picked_prefix(k, s[n - 1], bad, k.len() as int);
        }
    }
}

/// Setups with fewer than five trades and symbols with fewer than four change
/// nothing.
pub proof fn few_trades_change_nothing(m: Figures, setups: Seq<Stat>, syms: Seq<Stat>)
    ensures
        all_tips(
            m,
            traded(setups, 5, setups.len() as int),
            traded(syms, 4, syms.len() as int),
        ) == all_tips(m, setups, syms),
{
    lemma_setups_traded(setups, setups.len() as int);
    lemma_picked_traded(syms, true, syms.len() as int);
    lemma_picked_traded(syms, false, syms.len() as int);
}

} // verus!
