//! Which advice the numbers bring, told by the numbers alone.

use vstd::prelude::*;
use vstd::string::*;

use crate::advisor::{
    all_tips, bad_tips, data_tips, drawdown_tips, factor_tips, first_four, good_tips, kelly_tips,
    picked, report_of, setup_tip, setup_tips, stop_tips, symbol_list, symbol_words, tip_lines,
    unspaced, upgrade_tips, win_rate_tips, worst_first, Advice, P,
};
use crate::decimal::{dec, lemma_pow10_28, lemma_pow10_adds, one, pow10, product, share};
use crate::ranking::{outranks, ranking, ranking_is_stable_and_complete};
use crate::store::Stat;
use crate::types::Figures;

verus! {

/// Is there advice of a priority under a tag?
pub open spec fn advised(s: Seq<Advice>, priority: P, tag: Seq<char>) -> bool {
    exists|i: int| 0 <= i < s.len() && (#[trigger] s[i]).priority == priority && s[i].tag == tag
}

/// Is all of the advice under a tag?
spec fn tagged(s: Seq<Advice>, tag: Seq<char>) -> bool {
    forall|i: int| 0 <= i < s.len() ==> (#[trigger] s[i]).tag == tag
}

proof fn lemma_either(x: Seq<Advice>, y: Seq<Advice>, p: P, tag: Seq<char>)
    ensures
        advised(x + y, p, tag) <==> advised(x, p, tag) || advised(y, p, tag),
{
    let z = x + y;
    if advised(x, p, tag) {
        let i = choose|i: int|
            0 <= i < x.len() && (#[trigger] x[i]).priority == p && x[i].tag == tag;
        assert(z[i] == x[i]);
    }
    if advised(y, p, tag) {
        let i = choose|i: int|
            0 <= i < y.len() && (#[trigger] y[i]).priority == p && y[i].tag == tag;
        assert(z[x.len() + i] == y[i]);
    }
    if advised(z, p, tag) {
        let i = choose|i: int|
            0 <= i < z.len() && (#[trigger] z[i]).priority == p && z[i].tag == tag;
        if i < x.len() {
            assert(x[i] == z[i]);
        } else {
            assert(y[i - x.len()] == z[i]);
        }
    }
}

proof fn lemma_setups_tagged(s: Seq<Stat>, n: int)
    ensures
        setup_tips(s, n) matches Some(t) ==> tagged(t, "SETUP"@),
    decreases n,
{
    if n > 0 {
        lemma_setups_tagged(s, n - 1);
    }
}

proof fn lemma_tags()
    ensures
        "DATA"@ != "WIN RATE"@ && "DATA"@ != "EXITS"@ && "DATA"@ != "SL SIZE"@ && "DATA"@
            != "DRAWDOWN"@ && "DATA"@ != "KELLY"@ && "DATA"@ != "SETUP"@ && "DATA"@ != "COINS"@
            && "DATA"@ != "UPGRADE"@,
        "WIN RATE"@ != "EXITS"@ && "WIN RATE"@ != "SL SIZE"@ && "WIN RATE"@ != "DRAWDOWN"@
            && "WIN RATE"@ != "KELLY"@ && "WIN RATE"@ != "SETUP"@ && "WIN RATE"@ != "COINS"@
            && "WIN RATE"@ != "UPGRADE"@,
        "EXITS"@ != "SL SIZE"@ && "EXITS"@ != "DRAWDOWN"@ && "EXITS"@ != "KELLY"@ && "EXITS"@
            != "SETUP"@ && "EXITS"@ != "COINS"@ && "EXITS"@ != "UPGRADE"@,
        "SL SIZE"@ != "DRAWDOWN"@ && "SL SIZE"@ != "KELLY"@ && "SL SIZE"@ != "SETUP"@ && "SL SIZE"@
            != "COINS"@ && "SL SIZE"@ != "UPGRADE"@,
        "DRAWDOWN"@ != "KELLY"@ && "DRAWDOWN"@ != "SETUP"@ && "DRAWDOWN"@ != "COINS"@ && "DRAWDOWN"@
            != "UPGRADE"@,
        "KELLY"@ != "SETUP"@ && "KELLY"@ != "COINS"@ && "KELLY"@ != "UPGRADE"@,
        "SETUP"@ != "COINS"@ && "SETUP"@ != "UPGRADE"@,
        "COINS"@ != "UPGRADE"@,
{
    reveal_strlit("DATA");
    reveal_strlit("WIN RATE");
    reveal_strlit("EXITS");
    reveal_strlit("SL SIZE");
    reveal_strlit("DRAWDOWN");
    reveal_strlit("KELLY");
    reveal_strlit("SETUP");
    reveal_strlit("COINS");
    reveal_strlit("UPGRADE");
    assert("DATA"@.len() == 4 && "WIN RATE"@.len() == 8 && "DRAWDOWN"@.len() == 8);
    assert("EXITS"@.len() == 5 && "KELLY"@.len() == 5 && "SETUP"@.len() == 5 && "COINS"@.len() == 5);
    assert("SL SIZE"@.len() == 7 && "UPGRADE"@.len() == 7);
    assert("WIN RATE"@[0] == 'W' && "DRAWDOWN"@[0] == 'D');
    assert("EXITS"@[0] == 'E' && "KELLY"@[0] == 'K' && "SETUP"@[0] == 'S' && "COINS"@[0] == 'C');
    assert("SL SIZE"@[0] == 'S' && "UPGRADE"@[0] == 'U');
}

/// The part of the advice that stands under a tag.
spec fn part_of(
    m: Figures,
    setups: Seq<Stat>,
    syms: Seq<Stat>,
    tag: Seq<char>,
) -> Seq<Advice> {
    if tag == "DATA"@ {
        data_tips(m)->0
    } else if tag == "WIN RATE"@ {
        win_rate_tips(m)->0
    } else if tag == "EXITS"@ {
        factor_tips(m)->0
    } else if tag == "SL SIZE"@ {
        stop_tips(m)->0
    } else if tag == "DRAWDOWN"@ {
        drawdown_tips(m)->0
    } else if tag == "KELLY"@ {
        kelly_tips(m)->0
    } else if tag == "SETUP"@ {
        setup_tips(setups, setups.len() as int)->0
    } else if tag == "COINS"@ {
        bad_tips(syms)->0 + good_tips(syms)->0
    } else {
        upgrade_tips()->0
    }
}

proof fn lemma_none(s: Seq<Advice>, tag: Seq<char>, p: P, other: Seq<char>)
    requires
        tagged(s, tag),
        other != tag,
    ensures
        !advised(s, p, other),
{
}

/// Advice under one of the tags comes from its part.
proof fn lemma_part(m: Figures, setups: Seq<Stat>, syms: Seq<Stat>, p: P, tag: Seq<char>)
    requires
        all_tips(m, setups, syms) is Some,
        tag == "DATA"@ || tag == "WIN RATE"@ || tag == "EXITS"@ || tag == "SL SIZE"@ || tag
            == "DRAWDOWN"@ || tag == "KELLY"@ || tag == "SETUP"@ || tag == "COINS"@,
    ensures
        advised(all_tips(m, setups, syms)->0, p, tag) <==> advised(
            part_of(m, setups, syms, tag),
            p,
            tag,
        ),
        data_tips(m) is Some && win_rate_tips(m) is Some && factor_tips(m) is Some && stop_tips(
            m,
        ) is Some && drawdown_tips(m) is Some && kelly_tips(m) is Some && setup_tips(
            setups,
            setups.len() as int,
        ) is Some && bad_tips(syms) is Some && good_tips(syms) is Some,
{
    lemma_tags();
    let n = setups.len() as int;
    let a1 = data_tips(m)->0;
    let a2 = win_rate_tips(m)->0;
    let a3 = factor_tips(m)->0;
    let a4 = stop_tips(m)->0;
    let a5 = drawdown_tips(m)->0;
    let a6 = kelly_tips(m)->0;
    let a7 = setup_tips(setups, n)->0;
    let a8 = bad_tips(syms)->0;
    let a9 = good_tips(syms)->0;
    let a10 = upgrade_tips()->0;
    lemma_setups_tagged(setups, n);
    assert(tagged(a1, "DATA"@));
    assert(tagged(a2, "WIN RATE"@));
    assert(tagged(a3, "EXITS"@));
    assert(tagged(a4, "SL SIZE"@));
    assert(tagged(a5, "DRAWDOWN"@));
    assert(tagged(a6, "KELLY"@));
    assert(tagged(a8, "COINS"@));
    assert(tagged(a9, "COINS"@));
    assert(tagged(a10, "UPGRADE"@));
    lemma_either(a1, a2, p, tag);
    lemma_either(a1 + a2, a3, p, tag);
    lemma_either(a1 + a2 + a3, a4, p, tag);
    lemma_either(a1 + a2 + a3 + a4, a5, p, tag);
    lemma_either(a1 + a2 + a3 + a4 + a5, a6, p, tag);
    lemma_either(a1 + a2 + a3 + a4 + a5 + a6, a7, p, tag);
    lemma_either(a1 + a2 + a3 + a4 + a5 + a6 + a7, a8, p, tag);
    lemma_either(a1 + a2 + a3 + a4 + a5 + a6 + a7 + a8, a9, p, tag);
    lemma_either(a1 + a2 + a3 + a4 + a5 + a6 + a7 + a8 + a9, a10, p, tag);
    lemma_either(a8, a9, p, tag);
    if tag != "DATA"@ {
        lemma_none(a1, "DATA"@, p, tag);
    }
    if tag != "WIN RATE"@ {
        lemma_none(a2, "WIN RATE"@, p, tag);
    }
    if tag != "EXITS"@ {
        lemma_none(a3, "EXITS"@, p, tag);
    }
    if tag != "SL SIZE"@ {
        lemma_none(a4, "SL SIZE"@, p, tag);
    }
    if tag != "DRAWDOWN"@ {
        lemma_none(a5, "DRAWDOWN"@, p, tag);
    }
    if tag != "KELLY"@ {
        lemma_none(a6, "KELLY"@, p, tag);
    }
    if tag != "SETUP"@ {
        lemma_none(a7, "SETUP"@, p, tag);
    }
    if tag != "COINS"@ {
        lemma_none(a8, "COINS"@, p, tag);
        lemma_none(a9, "COINS"@, p, tag);
    }
    lemma_none(a10, "UPGRADE"@, p, tag);
}

proof fn lemma_one(s: Seq<Advice>, p: P, tag: Seq<char>)
    requires
        s.len() <= 1,
    ensures
        advised(s, p, tag) <==> s.len() == 1 && s[0].priority == p && s[0].tag == tag,
{
}

/// Of the metrics as a whole: fewer than 10 trades are critical and fewer than
/// 30 important; with 10 trades a win rate below 42 % is critical, below 50 %
/// important and from 62 % on worth a note, a profit factor below 1 critical and
/// below 1.4 important, and an average loss above 80 % of the average win
/// important; a drawdown above 12 % is critical and above 7 % important; with
/// 20 trades a Kelly fraction below 2 % is important and from 8 % on worth a
/// note.
pub proof fn metrics_bring_their_advice(m: Figures, setups: Seq<Stat>, syms: Seq<Stat>)
    ensures
        all_tips(m, setups, syms) matches Some(s) ==> {
            &&& advised(s, P::Critical, "DATA"@) <==> m.total < 10
            &&& advised(s, P::Important, "DATA"@) <==> 10 <= m.total < 30
            &&& !advised(s, P::Info, "DATA"@)
            &&& advised(s, P::Critical, "WIN RATE"@) <==> m.total >= 10 && m.win_rate < dec(42, 2)
            &&& advised(s, P::Important, "WIN RATE"@) <==> m.total >= 10 && dec(42, 2)
                <= m.win_rate < dec(50, 2)
            &&& advised(s, P::Info, "WIN RATE"@) <==> m.total >= 10 && m.win_rate >= dec(62, 2)
            &&& advised(s, P::Critical, "EXITS"@) <==> m.total >= 10 && m.profit_factor < one()
            &&& advised(s, P::Important, "EXITS"@) <==> m.total >= 10 && one() <= m.profit_factor
                < dec(14, 1)
            &&& !advised(s, P::Info, "EXITS"@)
            &&& advised(s, P::Important, "SL SIZE"@) <==> m.total >= 10 && (product(
                m.avg_win_usd,
                dec(80, 2),
            ) matches Some(most) && m.avg_loss_usd > most)
            &&& advised(s, P::Critical, "DRAWDOWN"@) <==> m.max_drawdown > dec(12, 2)
            &&& advised(s, P::Important, "DRAWDOWN"@) <==> dec(7, 2) < m.max_drawdown <= dec(12, 2)
            &&& !advised(s, P::Info, "DRAWDOWN"@)
            &&& advised(s, P::Important, "KELLY"@) <==> m.total >= 20 && m.kelly_fraction < dec(
                2,
                2,
            )
            &&& advised(s, P::Info, "KELLY"@) <==> m.total >= 20 && m.kelly_fraction >= dec(8, 2)
            &&& !advised(s, P::Critical, "KELLY"@)
        },
{
    if all_tips(m, setups, syms) is Some {
        lemma_tags();
        lemma_levels();
        lemma_metrics(m, setups, syms, P::Critical);
        lemma_metrics(m, setups, syms, P::Important);
        lemma_metrics(m, setups, syms, P::Info);
    }
}

proof fn lemma_levels()
    ensures
        dec(2, 2) < dec(8, 2),
        dec(7, 2) < dec(12, 2),
        dec(38, 2) < dec(65, 2),
        dec(38, 2) < dec(68, 2),
        dec(42, 2) < dec(50, 2) < dec(62, 2),
        one() < dec(14, 1),
{
    lemma_pow10_28();
    lemma_pow10_adds(2, 26);
    lemma_pow10_adds(1, 27);
    assert(pow10(2) == 100 && pow10(1) == 10) by {
        reveal_with_fuel(pow10, 3);
    }
}

proof fn lemma_metrics(m: Figures, setups: Seq<Stat>, syms: Seq<Stat>, p: P)
    requires
        all_tips(m, setups, syms) is Some,
    ensures
        ({
            let s = all_tips(m, setups, syms)->0;
            &&& advised(s, p, "DATA"@) <==> advised(data_tips(m)->0, p, "DATA"@)
            &&& advised(s, p, "WIN RATE"@) <==> advised(win_rate_tips(m)->0, p, "WIN RATE"@)
            &&& advised(s, p, "EXITS"@) <==> advised(factor_tips(m)->0, p, "EXITS"@)
            &&& advised(s, p, "SL SIZE"@) <==> advised(stop_tips(m)->0, p, "SL SIZE"@)
            &&& advised(s, p, "DRAWDOWN"@) <==> advised(drawdown_tips(m)->0, p, "DRAWDOWN"@)
            &&& advised(s, p, "KELLY"@) <==> advised(kelly_tips(m)->0, p, "KELLY"@)
            &&& data_tips(m) is Some && win_rate_tips(m) is Some && factor_tips(m) is Some
            &&& stop_tips(m) is Some && drawdown_tips(m) is Some && kelly_tips(m) is Some
        }),
        ({
            let one_of = |s: Seq<Advice>, tag: Seq<char>|
                advised(s, p, tag) <==> s.len() == 1 && s[0].priority == p && s[0].tag == tag;
            &&& one_of(data_tips(m)->0, "DATA"@)
            &&& one_of(win_rate_tips(m)->0, "WIN RATE"@)
            &&& one_of(factor_tips(m)->0, "EXITS"@)
            &&& one_of(stop_tips(m)->0, "SL SIZE"@)
            &&& one_of(drawdown_tips(m)->0, "DRAWDOWN"@)
            &&& one_of(kelly_tips(m)->0, "KELLY"@)
        }),
{
    lemma_tags();
    lemma_part(m, setups, syms, p, "DATA"@);
    lemma_part(m, setups, syms, p, "WIN RATE"@);
    lemma_part(m, setups, syms, p, "EXITS"@);
    lemma_part(m, setups, syms, p, "SL SIZE"@);
    lemma_part(m, setups, syms, p, "DRAWDOWN"@);
    lemma_part(m, setups, syms, p, "KELLY"@);
    lemma_one(data_tips(m)->0, p, "DATA"@);
    lemma_one(win_rate_tips(m)->0, p, "WIN RATE"@);
    lemma_one(factor_tips(m)->0, p, "EXITS"@);
    lemma_one(stop_tips(m)->0, p, "SL SIZE"@);
    lemma_one(drawdown_tips(m)->0, p, "DRAWDOWN"@);
    lemma_one(kelly_tips(m)->0, p, "KELLY"@);
}

// ── Setups and coins ──────────────────────────────────────────────

/// Is there a setup among the first `n` that calls for advice of a priority:
/// with 5 trades one below 38 % is important, with 8 one above 68 % worth a
/// note?
spec fn calls(s: Seq<Stat>, p: P, n: int) -> bool {
    exists|i: int| 0 <= i < n && called(#[trigger] s[i], p)
}

/// Does a setup call for advice of a priority?
pub open spec fn called(x: Stat, p: P) -> bool {
    match p {
        P::Critical => false,
        P::Important => x.total >= 5 && share(x.wins, x.total) < dec(38, 2),
        P::Info => x.total >= 8 && share(x.wins, x.total) > dec(68, 2),
    }
}

proof fn lemma_setup(s: Seq<Stat>, p: P, n: int)
    requires
        0 <= n <= s.len(),
        setup_tips(s, n) is Some,
    ensures
        advised(setup_tips(s, n)->0, p, "SETUP"@) <==> calls(s, p, n),
    decreases n,
{
    lemma_levels();
    if n > 0 {
        lemma_setup(s, p, n - 1);
        let x = s[n - 1];
        lemma_either(setup_tips(s, n - 1)->0, setup_tip(x)->0, p, "SETUP"@);
        lemma_one(setup_tip(x)->0, p, "SETUP"@);
        assert(advised(setup_tip(x)->0, p, "SETUP"@) <==> called(x, p));
        assert(calls(s, p, n) <==> calls(s, p, n - 1) || called(s[n - 1], p)) by {
            if calls(s, p, n) {
                let i = choose|i: int| 0 <= i < n && called(#[trigger] s[i], p);
                assert(called(s[i], p));
            }
            if calls(s, p, n - 1) {
                let i = choose|i: int| 0 <= i < n - 1 && called(#[trigger] s[i], p);
                assert(called(s[i], p));
            }
        }
    }
}

/// There is important advice on setups just where one with 5 trades wins less
/// than 38 %, and a note just where one with 8 wins more than 68 %.
pub proof fn setups_bring_their_advice(m: Figures, setups: Seq<Stat>, syms: Seq<Stat>, p: P)
    ensures
        all_tips(m, setups, syms) matches Some(s) ==> (advised(s, p, "SETUP"@) <==> exists|i: int|
            0 <= i < setups.len() && called(#[trigger] setups[i], p)),
{
    if all_tips(m, setups, syms) is Some {
        lemma_tags();
        lemma_part(m, setups, syms, p, "SETUP"@);
        lemma_setup(setups, p, setups.len() as int);
    }
}

/// Is a coin with at least four trades below 38 % (or else from 65 % on)?
pub open spec fn stands_out(x: Stat, bad: bool) -> bool {
    x.total >= 4 && if bad {
        share(x.wins, x.total) < dec(38, 2)
    } else {
        share(x.wins, x.total) >= dec(65, 2)
    }
}

proof fn lemma_picked_prefix(s: Seq<Stat>, x: Stat, bad: bool, n: int)
    requires
        n <= s.len(),
    ensures
        picked(s.push(x), bad, n) == picked(s, bad, n),
    decreases n,
{
    if n > 0 {
        lemma_picked_prefix(s, x, bad, n - 1);
        assert(s.push(x)[n - 1] == s[n - 1]);
    }
}

/// The coins that are picked are just those that stand out, in their order.
pub proof fn coins_that_stand_out_are_picked(s: Seq<Stat>, bad: bool)
    ensures
        picked(s, bad, s.len() as int) == s.filter(|x: Stat| stands_out(x, bad)),
    decreases s.len(),
{
    reveal(Seq::filter);
    if s.len() > 0 {
        let r = s.drop_last();
        coins_that_stand_out_are_picked(r, bad);
        lemma_picked_prefix(r, s.last(), bad, r.len() as int);
        assert(r.push(s.last()) =~= s);
    }
}

proof fn lemma_picks(s: Seq<Stat>, bad: bool, n: int)
    requires
        0 <= n <= s.len(),
    ensures
        picked(s, bad, n).len() > 0 <==> exists|i: int|
            0 <= i < n && stands_out(#[trigger] s[i], bad),
    decreases n,
{
    if n > 0 {
        lemma_picks(s, bad, n - 1);
        if stands_out(s[n - 1], bad) {
            assert(picked(s, bad, n).len() > 0);
        }
    }
}

/// There is important advice on coins just where one with 4 trades wins less
/// than 38 %, and a note just where one wins at least 65 %.
pub proof fn coins_bring_their_advice(m: Figures, setups: Seq<Stat>, syms: Seq<Stat>)
    ensures
        all_tips(m, setups, syms) matches Some(s) ==> {
            &&& advised(s, P::Important, "COINS"@) <==> exists|i: int|
                0 <= i < syms.len() && stands_out(#[trigger] syms[i], true)
            &&& advised(s, P::Info, "COINS"@) <==> exists|i: int|
                0 <= i < syms.len() && stands_out(#[trigger] syms[i], false)
            &&& !advised(s, P::Critical, "COINS"@)
        },
{
    if all_tips(m, setups, syms) is Some {
        lemma_tags();
        let n = syms.len() as int;
        lemma_picks(syms, true, n);
        lemma_picks(syms, false, n);
        lemma_coins(m, setups, syms, P::Important);
        lemma_coins(m, setups, syms, P::Info);
        lemma_coins(m, setups, syms, P::Critical);
    }
}

proof fn lemma_coins(m: Figures, setups: Seq<Stat>, syms: Seq<Stat>, p: P)
    requires
        all_tips(m, setups, syms) is Some,
    ensures
        ({
            let n = syms.len() as int;
            advised(all_tips(m, setups, syms)->0, p, "COINS"@) <==> match p {
                P::Critical => false,
                P::Important => picked(syms, true, n).len() > 0,
                P::Info => picked(syms, false, n).len() > 0,
            }
        }),
{
    lemma_tags();
    lemma_part(m, setups, syms, p, "COINS"@);
    lemma_either(bad_tips(syms)->0, good_tips(syms)->0, p, "COINS"@);
    lemma_one(bad_tips(syms)->0, p, "COINS"@);
    lemma_one(good_tips(syms)->0, p, "COINS"@);
}

/// The worst come first: of two, the one that wins less, and of two alike the
/// one that was there first.
pub proof fn the_worst_come_first(s: Seq<Stat>) -> (places: Seq<int>)
    ensures
        worst_first(s).len() == s.len(),
        places.len() == s.len(),
        forall|i: int|
            0 <= i < s.len() ==> 0 <= #[trigger] places[i] < s.len() && worst_first(s)[i]
                == s[places[i]],
        forall|i: int, j: int|
            0 <= i < j < s.len() ==> ahead_of(s, #[trigger] places[i], #[trigger] places[j]),
        forall|k: int| 0 <= k < s.len() ==> #[trigger] places.contains(k),
{
    let keys = s.map_values(|x: Stat| -share(x.wins, x.total));
    ranking_is_stable_and_complete(keys);
    let r = ranking(keys);
    assert forall|i: int, j: int| 0 <= i < j < s.len() implies ahead_of(
        s,
        #[trigger] r[i],
        #[trigger] r[j],
    ) by {
        assert(outranks(keys, r[i], r[j]));
    }
    r
}

/// Does the coin at one place win less than the one at another, or as much and
/// come first?
pub open spec fn ahead_of(s: Seq<Stat>, a: int, b: int) -> bool {
    let x = share(s[a].wins, s[a].total);
    let y = share(s[b].wins, s[b].total);
    x < y || (x == y && a < b)
}

// ── Lists ─────────────────────────────────────────────────────────

proof fn lemma_list_prefix(s: Seq<Stat>, bad: bool, m: int, n: int)
    requires
        n <= m <= s.len(),
    ensures
        symbol_list(s.take(m), bad, n) == symbol_list(s, bad, n),
    decreases n,
{
    if n > 0 {
        lemma_list_prefix(s, bad, m, n - 1);
        assert(s.take(m)[n - 1] == s[n - 1]);
    }
}

/// No more than four coins are named, the first ones.
pub proof fn four_coins_are_named(s: Seq<Stat>, bad: bool)
    requires
        s.len() >= 4,
    ensures
        first_four(s, bad) == first_four(s.take(4), bad),
        first_four(s, bad) is Some <==> symbol_words(s[0], bad) is Some && symbol_words(
            s[1],
            bad,
        ) is Some && symbol_words(s[2], bad) is Some && symbol_words(s[3], bad) is Some,
{
    lemma_list_prefix(s, bad, 4, 4);
    reveal_with_fuel(symbol_list, 5);
}

proof fn lemma_lines_prefix(s: Seq<Advice>, m: int, n: int)
    requires
        n <= m <= s.len(),
    ensures
        tip_lines(s.take(m), n) == tip_lines(s, n),
    decreases n,
{
    if n > 0 {
        lemma_lines_prefix(s, m, n - 1);
        assert(s.take(m)[n - 1] == s[n - 1]);
    }
}

/// No more than twelve tips are told, the first ones.
pub proof fn twelve_tips_are_told(m: Figures, tips: Seq<Advice>)
    requires
        tips.len() >= 12,
    ensures
        report_of(m, tips) == report_of(m, tips.take(12)),
        tip_lines(tips, 12).len() == 12,
{
    lemma_lines_prefix(tips, 12, 12);
    reveal_with_fuel(tip_lines, 13);
}

proof fn lemma_unspaced_prefix(s: Seq<char>, c: char, n: int)
    requires
        n <= s.len(),
    ensures
        unspaced(s.push(c), n) == unspaced(s, n),
    decreases n,
{
    if n > 0 {
        lemma_unspaced_prefix(s, c, n - 1);
        assert(s.push(c)[n - 1] == s[n - 1]);
    }
}

/// A name without its spaces is its other characters, in their order.
pub proof fn only_spaces_are_left_out(s: Seq<char>)
    ensures
        unspaced(s, s.len() as int) == s.filter(|c: char| c != ' '),
    decreases s.len(),
{
    reveal(Seq::filter);
    if s.len() > 0 {
        let r = s.drop_last();
        only_spaces_are_left_out(r);
        lemma_unspaced_prefix(r, s.last(), r.len() as int);
        assert(r.push(s.last()) =~= s);
    }
}

} // verus!
