//! What a round of [`crate::orchestrator`] goes through, and what the messages of
//! [`crate::telegram`] begin with and where they go.

use vstd::prelude::*;
use vstd::string::*;

use crate::decimal::dec;
use crate::orchestrator::{to_midnight, Action, Event, Round, Stage};
use crate::telegram::{card, coin_row, direction_label, result_form, Delivery, TelegramClient};
use crate::text::digits;
use crate::types::{Direction, Idea, Outcome, Rated};

verus! {

// ── Rounds ────────────────────────────────────────────────────────

/// The round after an event.
pub open spec fn after(r: Round, e: Event) -> Round {
    Round { watched: r.watched, live: r.live, stage: r.next(e).0 }
}

/// A round asks whether it may trade, then prices the open trades, then
/// evaluates them, then looks at the first symbol; it ends where it may not
/// trade, where nothing is watched and where there are no prices.
pub proof fn rounds_begin_with_the_open_trades(r: Round)
    requires
        r.stage == Stage::Gate,
    ensures
        r.next(Event::Refused) == (Stage::Over, Action::Halt(300)),
        r.watched == 0 ==> r.next(Event::Permitted) == (Stage::Over, Action::Skip),
        r.watched > 0 ==> {
            let priced = after(r, Event::Permitted);
            let valued = after(priced, Event::Priced);
            &&& r.next(Event::Permitted).1 == Action::FetchPrices
            &&& priced.next(Event::Priced).1 == Action::EvaluateOpen
            &&& priced.next(Event::PricesFailed) == (Stage::Over, Action::Skip)
            &&& valued.next(Event::Evaluated).1 == Action::FetchCandles(0)
            &&& after(valued, Event::Evaluated).stage == Stage::Fetching(0)
        },
{
}

/// Is the round at the symbol after `symbol`, or at its end after the last?
pub open spec fn at_symbol_after(next: (Stage, Action), symbol: int, watched: int) -> bool {
    if symbol + 1 < watched {
        &&& next.0 matches Stage::Fetching(s) && s == symbol + 1
        &&& next.1 matches Action::FetchCandles(s) && s == symbol + 1
    } else {
        next == (Stage::Over, Action::Finish)
    }
}

/// Is the round at signal `signal` of a symbol, or past its signals?
pub open spec fn at_signal(
    next: (Stage, Action),
    symbol: int,
    signal: int,
    signals: int,
    watched: int,
) -> bool {
    if signal < signals {
        &&& next.0 matches Stage::Carding { symbol: s, signal: k, signals: n } && s == symbol && k
            == signal && n == signals
        &&& next.1 matches Action::SendCard { symbol: s, signal: k } && s == symbol && k == signal
    } else {
        at_symbol_after(next, symbol, watched)
    }
}

/// No symbol and no signal is left out: from the candles of a symbol the round
/// goes to its first signal, from the card of a signal to its record, from the
/// record in live mode to its order, and from there, or from a record in paper
/// mode or one that failed, to the next signal; past the last signal, or
/// without candles, to the next symbol.
pub proof fn rounds_leave_nothing_out(r: Round, symbol: usize, signal: usize, signals: usize)
    requires
        symbol < r.watched,
        signal < signals,
    ensures
        r.stage == Stage::Fetching(symbol) ==> {
            &&& at_signal(
                r.next(Event::Analysed(signals)),
                symbol as int,
                0,
                signals as int,
                r.watched as int,
            )
            &&& at_symbol_after(r.next(Event::Analysed(0)), symbol as int, r.watched as int)
            &&& at_symbol_after(r.next(Event::CandlesFailed), symbol as int, r.watched as int)
        },
        r.stage == (Stage::Carding { symbol, signal, signals }) ==> r.next(Event::CardSent) == (
            Stage::Recording { symbol, signal, signals },
            Action::Record { symbol, signal },
        ),
        r.stage == (Stage::Recording { symbol, signal, signals }) ==> {
            &&& r.live ==> r.next(Event::Recorded) == (
                Stage::Trading { symbol, signal, signals },
                Action::PlaceOrder { symbol, signal },
            )
            &&& !r.live ==> at_signal(
                r.next(Event::Recorded),
                symbol as int,
                signal + 1,
                signals as int,
                r.watched as int,
            )
            &&& at_signal(
                r.next(Event::RecordFailed),
                symbol as int,
                signal + 1,
                signals as int,
                r.watched as int,
            )
        },
        r.stage == (Stage::Trading { symbol, signal, signals }) ==> at_signal(
            r.next(Event::Ordered),
            symbol as int,
            signal + 1,
            signals as int,
            r.watched as int,
        ),
{
}

/// The way to midnight ends at a whole number of days, and is longer than
/// nothing and no longer than a day.
pub proof fn the_next_midnight_is_ahead(now: int)
    requires
        now >= 0,
    ensures
        0 < to_midnight(now) <= 86_400_000,
        (now + to_midnight(now)) % 86_400_000 == 0,
{
}

// ── Messages ──────────────────────────────────────────────────────

/// The message of a result begins by how the trade came out.
pub proof fn results_begin_with_the_outcome(i: Idea, exit: int, pnl: int)
    ensures
        result_form(i, Outcome::Win, exit, pnl)[0] == '✅',
        result_form(i, Outcome::Loss, exit, pnl)[0] == '❌',
        result_form(i, Outcome::Open, exit, pnl)[0] == '🔄',
{
    reveal_strlit("✅ <b>TRADE WIN</b>\n");
    reveal_strlit("❌ <b>TRADE LOSS</b>\n");
    reveal_strlit("🔄 <b>TRADE STILL OPEN</b>\n");
}

/// A text is sent to the chat of the client, as it is, just where the client is
/// enabled; a text that is out of range is not sent.
pub proof fn letters_go_to_the_chat(c: TelegramClient, text: Seq<char>)
    ensures
        c.delivery(None) == Delivery::OutOfRange,
        !c.enabled ==> c.delivery(Some(text)) == Delivery::Nothing,
        c.enabled ==> (c.delivery(Some(text)) matches Delivery::Send(l) && l.text == text
            && l.chat_id == c.chat_id@ && l.parse_mode == "HTML"@),
{
}

/// The card of a signal begins with a flame just where its confidence is at
/// least 0.88, and else with a bolt.
pub proof fn cards_begin_with_the_confidence(id: u128, i: Idea)
    ensures
        card(id, i) matches Some(t) ==> t.len() > 0 && t[0] == if i.confidence >= dec(88, 2) {
            '🔥'
        } else {
            '⚡'
        },
{
    reveal_strlit("🔥");
    reveal_strlit("⚡");
}

/// The label of a direction ends in its name, so a long is never shown as a
/// short.
pub proof fn directions_are_labelled(d: Direction)
    ensures
        d.text().is_suffix_of(direction_label(d)),
        direction_label(Direction::Long) != direction_label(Direction::Short),
{
    reveal_strlit("📈 LONG");
    reveal_strlit("📉 SHORT");
    reveal_strlit("LONG");
    reveal_strlit("SHORT");
    assert("📈 LONG"@.len() == 6 && "📉 SHORT"@.len() == 7);
    assert("📈 LONG"@.subrange(2, 6) =~= "LONG"@);
    assert("📉 SHORT"@.subrange(2, 7) =~= "SHORT"@);
}

/// The row of a coin begins with its rank, and ends with an arrow up just where
/// the trend is up.
pub proof fn coin_rows_show_the_trend(rank: int, c: Rated)
    ensures
        coin_row(rank, c) matches Some(t) ==> t.len() > 0 && t.last() == if c.trend_bullish {
            '↑'
        } else {
            '↓'
        } && digits(rank).is_prefix_of(t),
{
    reveal_strlit("↑");
    reveal_strlit("↓");
}

} // verus!
