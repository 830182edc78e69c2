//! Scores every actively-trading USDT pair by volume, volatility, trend
//! alignment and SMC quality, and picks the top candidates for signal
//! evaluation.

use vstd::prelude::*;

use crate::decimal::{
    dec, lemma_dec_monotone, lemma_dec_zeros, lemma_pow10_28, max_of, o_min, o_product, o_sum, one,
    part_is_bounded, pow10, product, quotient, representable, sign_is_kept, sum, sum_is_bounded,
    try_product, try_smaller, try_sum, val, Decimal,
};
use crate::exchange::{tickers, Ticker, Ticker24h};
use crate::indicators::{
    atr, atr_is_not_negative, atr_of, closes, closes_of, ema_last, ema_of, last_of, values,
};
use crate::ranking::{outranks, rank, ranked, ranking, ranking_is_stable_and_complete};
use crate::signals::{number_or, or_default};
use crate::smc::{analyse, context, context_score_range};
use crate::text::{contains, holds};
use crate::types::{bars, rated, Bar, Candle, CoinScore, Price, Rated, Symbol};

verus! {

/// The fewest candles that a coin is scored by.
pub const MIN_CANDLES_FOR_SCORE: usize = 55;

// ── Pre-filter ────────────────────────────────────────────────────

/// Does a pair have the volume, and is it no leveraged token?
pub open spec fn worth_scoring(t: Ticker, min_volume_usd: int) -> bool {
    &&& t.quote_volume >= min_volume_usd
    &&& !holds(t.symbol, "UP"@)
    &&& !holds(t.symbol, "DOWN"@)
    &&& !holds(t.symbol, "BULL"@)
    &&& !holds(t.symbol, "BEAR"@)
}

/// Those of the first `n` tickers that are worth scoring.
pub open spec fn worthy(s: Seq<Ticker>, min_volume_usd: int, n: int) -> Seq<Ticker>
    decreases n,
{
    if n <= 0 {
        seq![]
    } else if worth_scoring(s[n - 1], min_volume_usd) {
        worthy(s, min_volume_usd, n - 1).push(s[n - 1])
    } else {
        worthy(s, min_volume_usd, n - 1)
    }
}

fn is_candidate(t: &Ticker24h, min_volume_usd: Decimal) -> (r: bool)
    ensures
        r == worth_scoring(t@, min_volume_usd@),
{
    let s = t.symbol.as_str();
    min_volume_usd.at_most(t.quote_volume) && !contains(s, "UP") && !contains(s, "DOWN")
        && !contains(s, "BULL") && !contains(s, "BEAR")
}

/// Picks the pairs that are worth scoring, to avoid wasting API calls on
/// micro-caps.
pub fn candidates(list: &[Ticker24h], min_volume_usd: Decimal) -> (r: Vec<Ticker24h>)
    ensures
        tickers(r@) == worthy(tickers(list@), min_volume_usd@, list@.len() as int),
{
    let ghost all = tickers(list@);
    let mut out: Vec<Ticker24h> = Vec::new();
    let mut i: usize = 0;
    assert(tickers(out@) =~= seq![]);
    while i < list.len()
        invariant
            i <= list@.len(),
            all == tickers(list@),
            tickers(out@) == worthy(all, min_volume_usd@, i as int),
        decreases list@.len() - i,
    {
        assert(all[i as int] == list@[i as int]@);
        if is_candidate(&list[i], min_volume_usd) {
            let ghost before = out@;
            let t = list[i].clone();
            out.push(t);
            assert(tickers(out@) =~= tickers(before).push(t@));
        }
        i = i + 1;
    }
    out
}

// ── Scoring logic ─────────────────────────────────────────────────

/// The last close, zero where there is none.
pub open spec fn last_close(b: Seq<Bar>) -> int {
    if b.len() == 0 {
        0
    } else {
        b[b.len() - 1].close
    }
}

/// The ATR in percent of the price.
pub open spec fn volatility_of(b: Seq<Bar>) -> Option<int> {
    let price = last_close(b);
    match or_default(atr_of(b, 14), product(price, dec(1, 2))) {
        Some(atr) => if price > 0 {
            o_product(quotient(atr, price), Some(dec(100, 0)))
        } else {
            Some(0)
        },
        None => None,
    }
}

/// Is the fast average above the slow one, and the price above both?
pub open spec fn trend_of(b: Seq<Bar>) -> Option<bool> {
    let price = last_close(b);
    match (
        or_default(last_of(ema_of(closes_of(b), 20)), Some(price)),
        or_default(last_of(ema_of(closes_of(b), 50)), Some(price)),
    ) {
        (Some(e20), Some(e50)) => Some(e20 > e50 && price > e20),
        _ => None,
    }
}

/// The share of the largest useful value, at most one.
pub open spec fn capped_share(x: int, largest: int) -> Option<int> {
    o_min(quotient(x, largest), Some(one()))
}

/// Volume 30 % + volatility 20 % + trend 20 % + SMC 30 %.
pub open spec fn composite_of(vol: int, vola: int, trend: bool, smc: int) -> Option<int> {
    o_sum(
        o_sum(
            o_sum(product(vol, dec(30, 2)), product(vola, dec(20, 2))),
            product(
                if trend {
                    one()
                } else {
                    0
                },
                dec(20, 2),
            ),
        ),
        product(smc, dec(30, 2)),
    )
}

/// The score of a coin; `log_volume` is the decimal logarithm of its volume.
pub open spec fn score_of(symbol: Seq<char>, b: Seq<Bar>, t: Ticker, log_volume: int) -> Option<
    Rated,
> {
    match (volatility_of(b), trend_of(b), context(b, last_close(b))) {
        (Some(volatility), Some(trend), Some(smc)) => match (
            // Log-normalised against a $1B benchmark
            capped_share(max_of(log_volume, 0), dec(9, 0)),
            // 5 % ATR = maximum useful volatility
            capped_share(volatility, dec(5, 0)),
        ) {
            (Some(vol), Some(vola)) => match composite_of(vol, vola, trend, smc.score) {
                Some(composite) => Some(
                    Rated {
                        symbol,
                        composite,
                        volume_24h: t.quote_volume,
                        change_24h: t.price_change_pct,
                        volatility,
                        smc_score: smc.score,
                        trend_bullish: trend,
                    },
                ),
                None => None,
            },
            _ => None,
        },
        _ => None,
    }
}

fn share_capped(x: Decimal, largest: Decimal) -> (r: Option<Decimal>)
    ensures
        val(r) == capped_share(x@, largest@),
{
    try_smaller(x.checked_div(largest), Some(Decimal::one()))
}

fn compose(vol: Decimal, vola: Decimal, trend: bool, smc: Decimal) -> (r: Option<Decimal>)
    ensures
        val(r) == composite_of(vol@, vola@, trend, smc@),
{
    let part = if trend {
        Decimal::one()
    } else {
        Decimal::zero()
    };
    try_sum(
        try_sum(
            try_sum(
                vol.checked_mul(Decimal::new(30, 2)),
                vola.checked_mul(Decimal::new(20, 2)),
            ),
            part.checked_mul(Decimal::new(20, 2)),
        ),
        smc.checked_mul(Decimal::new(30, 2)),
    )
}

/// Scores a coin.  `log_volume` is the decimal logarithm of its 24-h quote
/// volume, zero or below for a volume of at most one.  `None` where a step
/// leaves the decimal range.
pub fn score_coin(
    symbol: &Symbol,
    candles: &[Candle],
    ticker: &Ticker24h,
    log_volume: Decimal,
) -> (r: Option<CoinScore>)
    ensures
        match r {
            Some(s) => score_of(symbol@, bars(candles@), ticker@, log_volume@) == Some(s@),
            None => score_of(symbol@, bars(candles@), ticker@, log_volume@) is None,
        },
{
    let ghost b = bars(candles@);
    let n = candles.len();
    let price = if n == 0 {
        Decimal::zero()
    } else {
        candles[n - 1].close.0
    };
    assert(price@ == last_close(b));
    let cs = closes(candles);
    let volatility = match number_or(atr(candles, 14), price.checked_mul(Decimal::new(1, 2))) {
        Some(a) => if Decimal::zero().less(price) {
            try_product(a.checked_div(price), Some(Decimal::new(100, 0)))
        } else {
            Some(Decimal::zero())
        },
        None => None,
    };
    let e20 = number_or(ema_last(cs.as_slice(), 20), Some(price));
    let e50 = number_or(ema_last(cs.as_slice(), 50), Some(price));
    let smc = analyse(candles, Price(price));
    match (volatility, e20, e50, smc) {
        (Some(volatility), Some(e20), Some(e50), Some(smc)) => {
            let trend = e50.less(e20) && e20.less(price);
            let vol = share_capped(log_volume.larger(Decimal::zero()), Decimal::new(9, 0));
            let vola = share_capped(volatility, Decimal::new(5, 0));
            match (vol, vola) {
                (Some(vol), Some(vola)) => match compose(vol, vola, trend, smc.score) {
                    Some(composite) => Some(
                        CoinScore {
                            symbol: symbol.clone(),
                            composite,
                            volume_24h: ticker.quote_volume,
                            change_24h: ticker.price_change_pct,
                            volatility,
                            smc_score: smc.score,
                            trend_bullish: trend,
                        },
                    ),
                    None => None,
                },
                _ => None,
            }
        },
        _ => None,
    }
}

/// The score of a coin that has enough candles.
pub open spec fn score_or_none(symbol: Seq<char>, b: Seq<Bar>, t: Ticker, log_volume: int) -> Option<
    Rated,
> {
    if b.len() < MIN_CANDLES_FOR_SCORE {
        None
    } else {
        score_of(symbol, b, t, log_volume)
    }
}

/// Scores a coin as [`score_coin`] does, if there are enough candles to score
/// it by.
pub fn score_if_enough(
    symbol: &Symbol,
    candles: &[Candle],
    ticker: &Ticker24h,
    log_volume: Decimal,
) -> (r: Option<CoinScore>)
    ensures
        candles@.len() < 55 ==> r is None,
        candles@.len() >= 55 ==> match r {
            Some(s) => score_of(symbol@, bars(candles@), ticker@, log_volume@) == Some(s@),
            None => score_of(symbol@, bars(candles@), ticker@, log_volume@) is None,
        },
{
    if candles.len() < MIN_CANDLES_FOR_SCORE {
        None
    } else {
        score_coin(symbol, candles, ticker, log_volume)
    }
}

// ── Selection ─────────────────────────────────────────────────────

/// The best `n` of some scores.
pub open spec fn best(s: Seq<Rated>, n: nat) -> Seq<Rated> {
    let r = ranked(s, s.map_values(|c: Rated| c.composite));
    if r.len() <= n {
        r
    } else {
        r.take(n as int)
    }
}

/// Picks the `n` coins with the best composite scores, the best first.
pub fn top_coins(scores: Vec<CoinScore>, n: usize) -> (r: Vec<CoinScore>)
    ensures
        rated(r@) == best(rated(scores@), n as nat),
{
    let ghost all = scores@;
    let mut keys: Vec<Decimal> = Vec::new();
    let mut i: usize = 0;
    while i < scores.len()
        invariant
            i <= scores@.len(),
            keys@.len() == i,
            forall|j: int| 0 <= j < i ==> #[trigger] keys@[j] == scores@[j].composite,
        decreases scores@.len() - i,
    {
        keys.push(scores[i].composite);
        i = i + 1;
    }
    let ghost ks = rated(all).map_values(|c: Rated| c.composite);
    assert(values(keys@) =~= ks);
    let mut out = rank(scores, keys);
    proof {
        ranking_is_stable_and_complete(ks);
        assert(rated(out@) =~= ranked(rated(all), ks));
    }
    if out.len() > n {
        out.truncate(n);
        assert(rated(out@) =~= ranked(rated(all), ks).take(n as int));
    }
    out
}

// ── The scan ──────────────────────────────────────────────────────

/// A pair with what was fetched of it.
pub struct Fetched {
    pub ticker: Ticker24h,
    pub candles: Vec<Candle>,
    /// The decimal logarithm of its 24-h quote volume.
    pub log_volume: Decimal,
}

/// What a fetched pair stands for.
pub struct Row {
    pub ticker: Ticker,
    pub bars: Seq<Bar>,
    pub log_volume: int,
}

impl View for Fetched {
    type V = Row;

    open spec fn view(&self) -> Row {
        Row { ticker: self.ticker@, bars: bars(self.candles@), log_volume: self.log_volume@ }
    }
}

/// What a list of fetched pairs stands for.
pub open spec fn rows(s: Seq<Fetched>) -> Seq<Row> {
    s.map_values(|f: Fetched| f@)
}

/// The score of a fetched pair.
pub open spec fn row_score(r: Row) -> Option<Rated> {
    score_or_none(r.ticker.symbol, r.bars, r.ticker, r.log_volume)
}

/// The scores of those of the first `n` fetched pairs that have one.
pub open spec fn scores_of(s: Seq<Row>, n: int) -> Seq<Rated>
    decreases n,
{
    if n <= 0 {
        seq![]
    } else {
        match row_score(s[n - 1]) {
            Some(r) => scores_of(s, n - 1).push(r),
            None => scores_of(s, n - 1),
        }
    }
}

/// Scores what was fetched and picks the `n` coins with the best scores, the
/// best first.  A pair with too few candles is passed over.
pub fn scan(fetched: &[Fetched], n: usize) -> (r: Vec<CoinScore>)
    ensures
        rated(r@) == best(scores_of(rows(fetched@), fetched@.len() as int), n as nat),
{
    let ghost all = rows(fetched@);
    let mut scores: Vec<CoinScore> = Vec::new();
    let mut i: usize = 0;
    assert(rated(scores@) =~= seq![]);
    while i < fetched.len()
        invariant
            i <= fetched@.len(),
            all == rows(fetched@),
            rated(scores@) == scores_of(all, i as int),
        decreases fetched@.len() - i,
    {
        let f = &fetched[i];
        assert(all[i as int] == f@);
        if let Some(s) = score_if_enough(
            &f.ticker.symbol,
            f.candles.as_slice(),
            &f.ticker,
            f.log_volume,
        ) {
            let ghost before = scores@;
            scores.push(s);
            assert(rated(scores@) =~= rated(before).push(s@));
        }
        i = i + 1;
    }
    top_coins(scores, n)
}

// ── Laws ──────────────────────────────────────────────────────────

/// At most `n` coins are picked, fewer only where there are fewer.  None has a
/// better score than one before it, and none that is left out has a better
/// score than one that is picked.
pub proof fn picks_are_the_best(s: Seq<Rated>, n: nat)
    ensures
        best(s, n).len() <= n,
        best(s, n).len() <= s.len(),
        s.len() <= n ==> best(s, n).len() == s.len(),
        forall|i: int, j: int|
            0 <= i < j < best(s, n).len() ==> (#[trigger] best(s, n)[i]).composite >= (
            #[trigger] best(s, n)[j]).composite,
        forall|i: int| 0 <= i < best(s, n).len() ==> s.contains(#[trigger] best(s, n)[i]),
        s.len() > n ==> best(s, n).len() == n,
        forall|k: int, i: int|
            0 <= k < s.len() && 0 <= i < best(s, n).len() && !best(s, n).contains(#[trigger] s[k])
                ==> s[k].composite <= (#[trigger] best(s, n)[i]).composite,
{
    let keys = s.map_values(|c: Rated| c.composite);
    ranking_is_stable_and_complete(keys);
    let r = ranking(keys);
    let top = best(s, n);
    assert forall|i: int, j: int| 0 <= i < j < top.len() implies (#[trigger] top[i]).composite >= (
    #[trigger] top[j]).composite by {
        assert(outranks(keys, r[i], r[j]));
        assert(top[i] == s[r[i]] && top[j] == s[r[j]]);
    }
    assert forall|i: int| 0 <= i < top.len() implies s.contains(#[trigger] top[i]) by {
        assert(top[i] == s[r[i]]);
    }
    assert forall|k: int, i: int|
        0 <= k < s.len() && 0 <= i < top.len() && !top.contains(
            #[trigger] s[k],
        ) implies s[k].composite <= (#[trigger] top[i]).composite by {
        assert(r.contains(k));
        let a = r.index_of(k);
        if a < top.len() {
            assert(top[a] == s[k]);
        }
        assert(outranks(keys, r[i], r[a]));
        assert(top[i] == s[r[i]]);
    }
}

/// A composite of shares within 0 and 1 is in range, and within 0 and 1.
pub proof fn composite_stays_in_range(vol: int, vola: int, trend: bool, smc: int)
    requires
        0 <= vol <= one(),
        0 <= vola <= one(),
        0 <= smc <= one(),
    ensures
        composite_of(vol, vola, trend, smc) matches Some(c) && 0 <= c <= one(),
{
    lemma_pow10_28();
    lemma_dec_monotone(0, 20, 2);
    lemma_dec_monotone(0, 30, 2);
    assert(representable(dec(20, 2)));
    assert(representable(dec(30, 2)));
    assert(representable(dec(50, 2)));
    assert(representable(dec(70, 2)));
    assert(representable(dec(100, 2)));
    assert(pow10(2) == 100) by {
        reveal_with_fuel(pow10, 3);
    }
    lemma_dec_zeros(1, 0, 2);
    part_is_bounded(vol, dec(30, 2));
    part_is_bounded(vola, dec(20, 2));
    let t = if trend {
        one()
    } else {
        0
    };
    part_is_bounded(t, dec(20, 2));
    part_is_bounded(smc, dec(30, 2));
    let a = product(vol, dec(30, 2))->0;
    let b = product(vola, dec(20, 2))->0;
    let c = product(t, dec(20, 2))->0;
    let d = product(smc, dec(30, 2))->0;
    sum_is_bounded(a, b, dec(30, 2), dec(20, 2));
    sum_is_bounded(sum(a, b)->0, c, dec(50, 2), dec(20, 2));
    sum_is_bounded(sum(sum(a, b)->0, c)->0, d, dec(70, 2), dec(30, 2));
}

/// The composite score of a coin is within 0 and 1.
pub proof fn score_stays_in_range(symbol: Seq<char>, b: Seq<Bar>, t: Ticker, log_volume: int)
    ensures
        score_of(symbol, b, t, log_volume) matches Some(s) ==> 0 <= s.composite <= one(),
{
    lemma_pow10_28();
    if let Some(s) = score_of(symbol, b, t, log_volume) {
        let price = last_close(b);
        let atr = or_default(atr_of(b, 14), product(price, dec(1, 2)))->0;
        atr_is_not_negative(b, 14);
        if price > 0 {
            lemma_dec_monotone(0, 1, 2);
            sign_is_kept(price, dec(1, 2));
            sign_is_kept(atr, price);
            sign_is_kept(quotient(atr, price)->0, dec(100, 0));
        }
        sign_is_kept(s.volatility, dec(5, 0));
        sign_is_kept(max_of(log_volume, 0), dec(9, 0));
        let smc = context(b, price)->0;
        context_score_range(b, price);
        composite_stays_in_range(
            capped_share(max_of(log_volume, 0), dec(9, 0))->0,
            capped_share(s.volatility, dec(5, 0))->0,
            s.trend_bullish,
            smc.score,
        );
    }
}

proof fn lemma_scores(s: Seq<Row>, n: int)
    requires
        0 <= n <= s.len(),
    ensures
        scores_of(s, n).len() <= n,
        forall|k: int|
            0 <= k < n ==> (row_score(#[trigger] s[k]) matches Some(r) ==> scores_of(
                s,
                n,
            ).contains(r)),
        forall|i: int|
            0 <= i < scores_of(s, n).len() ==> exists|k: int|
                0 <= k < n && row_score(#[trigger] s[k]) == Some(#[trigger] scores_of(s, n)[i]),
    decreases n,
{
    if n > 0 {
        lemma_scores(s, n - 1);
        let before = scores_of(s, n - 1);
        let after = scores_of(s, n);
        if let Some(r) = row_score(s[n - 1]) {
            assert(after == before.push(r));
            assert(after[before.len() as int] == r);
            assert forall|k: int| 0 <= k < n implies (row_score(#[trigger] s[k]) matches Some(x)
                ==> after.contains(x)) by {
                if let Some(x) = row_score(s[k]) {
                    if k < n - 1 {
                        let i = before.index_of(x);
                        assert(after[i] == x);
                    }
                }
            }
            assert forall|i: int| 0 <= i < after.len() implies exists|k: int|
                0 <= k < n && row_score(#[trigger] s[k]) == Some(#[trigger] after[i]) by {
                if i < before.len() {
                    assert(after[i] == before[i]);
                    let k = choose|k: int|
                        0 <= k < n - 1 && row_score(#[trigger] s[k]) == Some(before[i]);
                    assert(row_score(s[k]) == Some(after[i]));
                } else {
                    assert(row_score(s[n - 1]) == Some(after[i]));
                }
            }
        }
    }
}

/// What a scan picks are scores of pairs that have enough candles, and no pair
/// that is passed over has a better score than one that is picked.
pub proof fn scans_pick_the_best(s: Seq<Row>, n: nat)
    ensures
        ({
            let top = best(scores_of(s, s.len() as int), n);
            &&& top.len() <= n
            &&& forall|i: int|
                0 <= i < top.len() ==> exists|k: int|
                    0 <= k < s.len() && row_score(#[trigger] s[k]) == Some(#[trigger] top[i])
                        && s[k].bars.len() >= 55
            &&& forall|k: int, i: int|
                0 <= k < s.len() && 0 <= i < top.len() ==> (row_score(#[trigger] s[k]) matches Some(
                    r,
                ) ==> top.contains(r) || r.composite <= (#[trigger] top[i]).composite)
            &&& forall|k: int|
                0 <= k < s.len() && top.len() < n ==> (row_score(#[trigger] s[k]) matches Some(r)
                    ==> top.contains(r))
        }),
{
    let all = scores_of(s, s.len() as int);
    let top = best(all, n);
    lemma_scores(s, s.len() as int);
    picks_are_the_best(all, n);
    assert forall|i: int| 0 <= i < top.len() implies exists|k: int|
        0 <= k < s.len() && row_score(#[trigger] s[k]) == Some(#[trigger] top[i])
            && s[k].bars.len() >= 55 by {
        assert(all.contains(top[i]));
        let j = all.index_of(top[i]);
        assert(all[j] == top[i]);
        let k = choose|k: int| 0 <= k < s.len() && row_score(#[trigger] s[k]) == Some(all[j]);
        assert(row_score(s[k]) == Some(top[i]));
    }
    assert forall|k: int, i: int| 0 <= k < s.len() && 0 <= i < top.len() implies (row_score(
        #[trigger] s[k],
    ) matches Some(r) ==> top.contains(r) || r.composite <= (#[trigger] top[i]).composite) by {
        if let Some(r) = row_score(s[k]) {
            let j = all.index_of(r);
            assert(all[j] == r);
        }
    }
    assert forall|k: int| 0 <= k < s.len() && top.len() < n implies (row_score(
        #[trigger] s[k],
    ) matches Some(r) ==> top.contains(r)) by {
        if let Some(r) = row_score(s[k]) {
            let j = all.index_of(r);
            assert(all[j] == r);
            let keys = all.map_values(|c: Rated| c.composite);
            ranking_is_stable_and_complete(keys);
            let a = ranking(keys).index_of(j);
            assert(ranking(keys).contains(j));
            assert(top[a] == all[j]);
        }
    }
}

} // verus!
