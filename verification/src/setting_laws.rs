//! Which settings an environment gives, told by its variables alone.

use vstd::prelude::*;
use vstd::string::*;

use crate::config::{
    configured, count_of, digit_value, digits_value, settings_in, value_from, value_of, Fault, Mode,
    Settings,
};
use crate::decimal::{dec, decimal_of_text, lemma_pow10_28, lemma_pow10_adds, one, pow10};
use crate::text::{digit, digits, number_in, unicode_lower};

verus! {

// ── Variables ─────────────────────────────────────────────────────

proof fn lemma_value_from(env: Seq<(Seq<char>, Seq<char>)>, key: Seq<char>, i: int)
    requires
        0 <= i <= env.len(),
    ensures
        value_from(env, key, i) is None <==> forall|j: int|
            i <= j < env.len() ==> (#[trigger] env[j]).0 != key,
        forall|j: int|
            i <= j < env.len() && (#[trigger] env[j]).0 == key && (forall|k: int|
                i <= k < j ==> (#[trigger] env[k]).0 != key) ==> value_from(env, key, i) == Some(
                env[j].1,
            ),
    decreases env.len() - i,
{
    if i < env.len() {
        lemma_value_from(env, key, i + 1);
    }
}

/// A variable has no value just where it is not set, and else the first that it
/// is set to.
pub proof fn variables_have_their_first_value(
    env: Seq<(Seq<char>, Seq<char>)>,
    key: Seq<char>,
    j: int,
)
    ensures
        value_of(env, key) is None <==> forall|k: int|
            0 <= k < env.len() ==> (#[trigger] env[k]).0 != key,
        0 <= j < env.len() && env[j].0 == key && (forall|k: int|
            0 <= k < j ==> (#[trigger] env[k]).0 != key) ==> value_of(env, key) == Some(env[j].1),
{
    lemma_value_from(env, key, 0);
}

// ── Whole numbers ─────────────────────────────────────────────────

proof fn lemma_digits_read(s: Seq<char>, c: char, n: int)
    requires
        0 <= n <= s.len(),
    ensures
        digits_value(s.push(c), 0, n) == digits_value(s, 0, n),
    decreases n,
{
    if n > 0 {
        lemma_digits_read(s, c, n - 1);
        assert(s.push(c)[n - 1] == s[n - 1]);
    }
}

/// A count that is written in digits, with a plus sign or without, is read as
/// what was written.
pub proof fn written_counts_are_read(n: int)
    requires
        0 <= n <= usize::MAX,
    ensures
        digits_value(digits(n), 0, digits(n).len() as int) == Ok::<int, Seq<char>>(n),
        count_of(digits(n)) == Ok::<int, Seq<char>>(n),
        digits(n).len() >= 1,
        digits(n)[0] != '+',
    decreases n,
{
    assert(forall|d: int|
        0 <= d < 10 ==> digit_value(#[trigger] digit(d)) == Some(d) && digit(d) != '+');
    if n >= 10 {
        written_counts_are_read(n / 10);
        let s = digits(n / 10);
        lemma_digits_read(s, digit(n % 10), s.len() as int);
        assert(digits(n) == s.push(digit(n % 10)));
    } else {
        assert(digits_value(digits(n), 0, 0) == Ok::<int, Seq<char>>(0));
    }
}

/// A text with anything but digits after its sign is no count.
pub proof fn other_texts_are_no_counts(s: Seq<char>, i: int)
    requires
        0 < i < s.len(),
        !('0' <= s[i] && s[i] <= '9'),
    ensures
        count_of(s) is Err,
{
    lemma_bad_digit(s, 0, s.len() as int, i);
    lemma_bad_digit(s, 1, s.len() as int, i);
}

proof fn lemma_bad_digit(s: Seq<char>, from: int, n: int, i: int)
    requires
        0 <= from <= i < n <= s.len(),
        !('0' <= s[i] && s[i] <= '9'),
    ensures
        digits_value(s, from, n) is Err,
    decreases n,
{
    if i < n - 1 {
        lemma_bad_digit(s, from, n - 1, i);
    }
}

// ── Settings ──────────────────────────────────────────────────────

/// Is a setting what its variable says as a number, and its default where the
/// variable is not set?
pub open spec fn rated(
    env: Seq<(Seq<char>, Seq<char>)>,
    key: Seq<char>,
    default: int,
    x: int,
) -> bool {
    match value_of(env, key) {
        Some(v) => number_in(v) == Some(x),
        None => x == default,
    }
}

/// Is a setting what its variable says as a count, and its default where the
/// variable is not set?
pub open spec fn counted(
    env: Seq<(Seq<char>, Seq<char>)>,
    key: Seq<char>,
    default: int,
    x: int,
) -> bool {
    match value_of(env, key) {
        Some(v) => count_of(v) == Ok::<int, Seq<char>>(x),
        None => x == default,
    }
}

/// Accepted settings say what the variables say, and where one is not set: paper
/// mode, a capital of 1, a quarter of Kelly, trades of at most 10 %, 15 symbols
/// of at least two million a day, 50 trades with 54 % won at a factor of 1.5
/// before going live, a daily loss of 5 %, a drawdown of 15 %, a confidence of
/// 0.76, a reward of 2 for the risk, and the file pro_bot.db.
pub proof fn settings_say_what_the_variables_say(env: Seq<(Seq<char>, Seq<char>)>)
    ensures
        configured(env) matches Ok(s) ==> {
            &&& value_of(env, "BINANCE_API_KEY"@) == Some(s.binance_api_key)
            &&& value_of(env, "BINANCE_SECRET"@) == Some(s.binance_secret)
            &&& value_of(env, "TELEGRAM_TOKEN"@) == Some(s.telegram_token)
            &&& value_of(env, "TELEGRAM_CHAT_ID"@) == Some(s.telegram_chat_id)
            &&& match value_of(env, "BOT_MODE"@) {
                Some(v) => (unicode_lower(v) == "live"@ <==> s.mode == Mode::Live) && (
                unicode_lower(v) == "paper"@ <==> s.mode == Mode::Paper),
                None => s.mode == Mode::Paper,
            }
            &&& match value_of(env, "STARTING_CAPITAL_USD"@) {
                Some(v) => decimal_of_text(v) == Ok::<int, Seq<char>>(s.starting_capital),
                None => s.starting_capital == one(),
            }
            &&& rated(env, "KELLY_FRACTION"@, dec(25, 2), s.kelly_fraction)
            &&& rated(env, "MAX_TRADE_SIZE_PCT"@, dec(10, 2), s.max_trade_size_pct)
            &&& counted(env, "MAX_ACTIVE_SYMBOLS"@, 15, s.max_symbols)
            &&& rated(env, "MIN_VOLUME_USD"@, dec(2000000, 0), s.min_volume_usd)
            &&& counted(env, "MIN_TRADES_FOR_LIVE"@, 50, s.min_trades_for_live)
            &&& rated(env, "LIVE_READY_WIN_RATE"@, dec(54, 2), s.live_ready_win_rate)
            &&& rated(env, "LIVE_READY_PROFIT_FACTOR"@, dec(15, 1), s.live_ready_profit_factor)
            &&& rated(env, "MAX_DAILY_LOSS_PCT"@, dec(5, 2), s.max_daily_loss_pct)
            &&& rated(env, "MAX_DRAWDOWN_PCT"@, dec(15, 2), s.max_drawdown_pct)
            &&& rated(env, "MIN_CONFIDENCE"@, dec(76, 2), s.min_confidence)
            &&& rated(env, "MIN_RISK_REWARD"@, dec(20, 1), s.min_risk_reward)
            &&& match value_of(env, "DB_PATH"@) {
                Some(v) => s.db_path == v,
                None => s.db_path == "pro_bot.db"@,
            }
        },
{
    reveal_strlit("paper");
    reveal_strlit("live");
    assert("paper"@.len() == 5 && "live"@.len() == 4);
}

/// Is a variable not set, or a number?
pub open spec fn reads(env: Seq<(Seq<char>, Seq<char>)>, key: Seq<char>) -> bool {
    value_of(env, key) matches Some(v) ==> number_in(v) is Some
}

/// Settings are read just where the four credentials are set, the mode is paper
/// or live, and every number that is set is one.
pub proof fn settings_are_read_where_they_can_be(env: Seq<(Seq<char>, Seq<char>)>)
    ensures
        settings_in(env) is Ok <==> {
            &&& value_of(env, "BINANCE_API_KEY"@) is Some
            &&& value_of(env, "BINANCE_SECRET"@) is Some
            &&& value_of(env, "TELEGRAM_TOKEN"@) is Some
            &&& value_of(env, "TELEGRAM_CHAT_ID"@) is Some
            &&& value_of(env, "BOT_MODE"@) matches Some(v) ==> unicode_lower(v) == "live"@
                || unicode_lower(v) == "paper"@
            &&& value_of(env, "STARTING_CAPITAL_USD"@) matches Some(v) ==> decimal_of_text(v) is Ok
            &&& value_of(env, "MAX_ACTIVE_SYMBOLS"@) matches Some(v) ==> count_of(v) is Ok
            &&& value_of(env, "MIN_TRADES_FOR_LIVE"@) matches Some(v) ==> count_of(v) is Ok
            &&& reads(env, "KELLY_FRACTION"@)
            &&& reads(env, "MAX_TRADE_SIZE_PCT"@)
            &&& reads(env, "MIN_VOLUME_USD"@)
            &&& reads(env, "LIVE_READY_WIN_RATE"@)
            &&& reads(env, "LIVE_READY_PROFIT_FACTOR"@)
            &&& reads(env, "MAX_DAILY_LOSS_PCT"@)
            &&& reads(env, "MAX_DRAWDOWN_PCT"@)
            &&& reads(env, "MIN_CONFIDENCE"@)
            &&& reads(env, "MIN_RISK_REWARD"@)
        },
{
}

/// Settings that were read are accepted just where the Kelly fraction is above
/// 0 and at most 1, the daily loss above 0 and at most a half, the win rate at
/// least a half and at most 1, and for live trading neither credential is a
/// placeholder.
pub proof fn sound_settings_are_accepted(env: Seq<(Seq<char>, Seq<char>)>)
    ensures
        settings_in(env) matches Ok(s) ==> {
            &&& configured(env) is Ok <==> {
                &&& 0 < s.kelly_fraction <= one()
                &&& 0 < s.max_daily_loss_pct && 2 * s.max_daily_loss_pct <= one()
                &&& one() <= 2 * s.live_ready_win_rate && s.live_ready_win_rate <= one()
                &&& s.mode == Mode::Live ==> !"YOUR"@.is_prefix_of(s.binance_api_key)
                    && !"YOUR"@.is_prefix_of(s.binance_secret)
            }
            &&& configured(env) is Ok ==> configured(env) == Ok::<Settings, Fault>(s)
        },
{
    lemma_pow10_28();
    lemma_pow10_adds(1, 27);
    assert(pow10(1) == 10) by {
        reveal_with_fuel(pow10, 2);
    }
}

} // verus!
