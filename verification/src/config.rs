//! Typed, validated configuration read from environment variables.
//! Fail-fast at startup: if any required variable is missing or malformed,
//! the process exits before doing any network I/O.

use vstd::prelude::*;
use vstd::string::*;

use crate::decimal::{dec, decimal_of_text, one, Decimal};
use crate::text::{
    ascii, ascii_lower, lowercase, number_in, read_number, same_text, starts_with, unicode_lower,
};

verus! {

// ── Error type ────────────────────────────────────────────────────

#[derive(Debug)]
pub enum ConfigError {
    Missing(&'static str),
    Parse { var: &'static str, source: String },
    Invalid(String),
}

/// What a configuration error stands for.
pub enum Fault {
    Missing(Seq<char>),
    Parse { var: Seq<char>, source: Seq<char> },
    Invalid(Seq<char>),
}

impl View for ConfigError {
    type V = Fault;

    open spec fn view(&self) -> Fault {
        match self {
            ConfigError::Missing(var) => Fault::Missing(var@),
            ConfigError::Parse { var, source } => Fault::Parse { var: var@, source: source@ },
            ConfigError::Invalid(why) => Fault::Invalid(why@),
        }
    }
}

impl Fault {
    pub open spec fn text(self) -> Seq<char> {
        match self {
            Fault::Missing(var) => "Missing environment variable '"@ + var + "'"@,
            Fault::Parse { var, source } => "Invalid value for '"@ + var + "': "@ + source,
            Fault::Invalid(why) => "Validation failed: "@ + why,
        }
    }
}

impl ConfigError {
    pub fn to_string(&self) -> (r: String)
        ensures
            r@ == self@.text(),
    {
        match self {
            ConfigError::Missing(var) => {
                let mut r = "Missing environment variable '".to_owned();
                r.append(var);
                r.append("'");
                r
            },
            ConfigError::Parse { var, source } => {
                let mut r = "Invalid value for '".to_owned();
                r.append(var);
                r.append("': ");
                r.append(source.as_str());
                r
            },
            ConfigError::Invalid(why) => {
                let mut r = "Validation failed: ".to_owned();
                r.append(why.as_str());
                r
            },
        }
    }
}

// ── Bot mode ──────────────────────────────────────────────────────

#[derive(Debug, Clone, Copy, PartialEq, Eq, Structural)]
pub enum Mode {
    Paper,
    Live,
}

/// The mode that a text names, in any case of its letters.
pub open spec fn mode_of(text: Seq<char>) -> Result<Mode, Fault> {
    if unicode_lower(text) == "paper"@ {
        Ok(Mode::Paper)
    } else if unicode_lower(text) == "live"@ {
        Ok(Mode::Live)
    } else {
        Err(Fault::Invalid("BOT_MODE must be 'paper' or 'live', got '"@ + text + "'"@))
    }
}

impl Mode {
    pub open spec fn text(self) -> Seq<char> {
        match self {
            Mode::Paper => "paper"@,
            Mode::Live => "live"@,
        }
    }

    pub fn to_string(&self) -> (r: String)
        ensures
            r@ == self.text(),
    {
        match self {
            Mode::Paper => "paper".to_owned(),
            Mode::Live => "live".to_owned(),
        }
    }

    /// Reads a mode.
    pub fn read(s: &str) -> (r: Result<Mode, ConfigError>)
        ensures
            match r {
                Ok(m) => mode_of(s@) == Ok::<Mode, Fault>(m),
                Err(e) => mode_of(s@) == Err::<Mode, Fault>(e@),
            },
            ascii(s@) ==> {
                let lower = s@.map_values(|c: char| ascii_lower(c));
                &&& r == Ok::<Mode, ConfigError>(Mode::Paper) <==> lower == "paper"@
                &&& r == Ok::<Mode, ConfigError>(Mode::Live) <==> lower == "live"@
            },
    {
        proof {
            reveal_strlit("paper");
            reveal_strlit("live");
            assert("paper"@.len() != "live"@.len());
        }
        let lower = lowercase(s);
        if same_text(lower.as_str(), "paper") {
            return Ok(Mode::Paper);
        }
        if same_text(lower.as_str(), "live") {
            return Ok(Mode::Live);
        }
        let mut why = "BOT_MODE must be 'paper' or 'live', got '".to_owned();
        why.append(s);
        why.append("'");
        Err(ConfigError::Invalid(why))
    }
}

impl std::str::FromStr for Mode {
    type Err = ConfigError;

    fn from_str(s: &str) -> (r: Result<Mode, ConfigError>)
        ensures
            match r {
                Ok(m) => mode_of(s@) == Ok::<Mode, Fault>(m),
                Err(e) => mode_of(s@) == Err::<Mode, Fault>(e@),
            },
    {
        Mode::read(s)
    }
}

// ── Variables ─────────────────────────────────────────────────────

/// What a list of variables holds.
pub open spec fn vars(env: Seq<(String, String)>) -> Seq<(Seq<char>, Seq<char>)> {
    env.map_values(|v: (String, String)| (v.0@, v.1@))
}

/// The value of the first of the variables from `i` on that has the name.
pub open spec fn value_from(env: Seq<(Seq<char>, Seq<char>)>, key: Seq<char>, i: int) -> Option<
    Seq<char>,
>
    decreases env.len() - i,
{
    if i >= env.len() {
        None
    } else if env[i].0 == key {
        Some(env[i].1)
    } else {
        value_from(env, key, i + 1)
    }
}

pub open spec fn value_of(env: Seq<(Seq<char>, Seq<char>)>, key: Seq<char>) -> Option<Seq<char>> {
    value_from(env, key, 0)
}

fn lookup<'a>(env: &'a [(String, String)], key: &str) -> (r: Option<&'a str>)
    ensures
        match r {
            Some(v) => value_of(vars(env@), key@) == Some(v@),
            None => value_of(vars(env@), key@) is None,
        },
{
    let ghost all = vars(env@);
    let mut i: usize = 0;
    while i < env.len()
        invariant
            i <= env@.len() == all.len(),
            all == vars(env@),
            value_of(all, key@) == value_from(all, key@, i as int),
        decreases env@.len() - i,
    {
        let v = &env[i];
        assert(all[i as int] == (v.0@, v.1@));
        if same_text(v.0.as_str(), key) {
            return Some(v.1.as_str());
        }
        i = i + 1;
    }
    None
}

fn require(env: &[(String, String)], key: &'static str) -> (r: Result<String, ConfigError>)
    ensures
        match value_of(vars(env@), key@) {
            Some(v) => r is Ok && r->Ok_0@ == v,
            None => r is Err && r->Err_0@ == Fault::Missing(key@),
        },
{
    match lookup(env, key) {
        Some(v) => Ok(v.to_owned()),
        None => Err(ConfigError::Missing(key)),
    }
}

/// The value of a decimal digit.
pub open spec fn digit_value(c: char) -> Option<int> {
    if '0' <= c && c <= '9' {
        Some(c as u32 - '0' as u32)
    } else {
        None
    }
}

/// The count that the characters `from..n` write in decimal, or what is wrong
/// with the first of them at which it is none.
pub open spec fn digits_value(s: Seq<char>, from: int, n: int) -> Result<int, Seq<char>>
    decreases n - from,
{
    if n <= from {
        Ok(0)
    } else {
        match digits_value(s, from, n - 1) {
            Ok(v) => match digit_value(s[n - 1]) {
                Some(d) => if 10 * v + d <= usize::MAX {
                    Ok(10 * v + d)
                } else {
                    Err("number too large to fit in target type"@)
                },
                None => Err("invalid digit found in string"@),
            },
            Err(e) => Err(e),
        }
    }
}

/// The count that a text writes in decimal, with a plus sign before it or
/// none, or what is wrong with it.
pub open spec fn count_of(s: Seq<char>) -> Result<int, Seq<char>> {
    if s.len() == 0 {
        Err("cannot parse integer from empty string"@)
    } else if s[0] == '+' {
        if s.len() == 1 {
            Err("invalid digit found in string"@)
        } else {
            digits_value(s, 1, s.len() as int)
        }
    } else {
        digits_value(s, 0, s.len() as int)
    }
}

proof fn lemma_digits(s: Seq<char>, from: int, i: int, j: int)
    requires
        from <= i <= j,
        digits_value(s, from, i) is Err,
    ensures
        digits_value(s, from, j) == digits_value(s, from, i),
    decreases j - i,
{
    if i < j {
        lemma_digits(s, from, i, j - 1);
    }
}

/// Reads a count.
///
/// # Errors
/// What is wrong with the text, in words.
pub fn read_count(text: &str) -> (r: Result<usize, &'static str>)
    ensures
        match r {
            Ok(n) => count_of(text@) == Ok::<int, Seq<char>>(n as int),
            Err(e) => count_of(text@) == Err::<int, Seq<char>>(e@),
        },
{
    let ghost s = text@;
    let len = text.unicode_len();
    if len == 0 {
        return Err("cannot parse integer from empty string");
    }
    let mut i: usize = 0;
    if text.get_char(0) == '+' {
        if len == 1 {
            return Err("invalid digit found in string");
        }
        i = 1;
    }
    let from = i;
    let mut v: usize = 0;
    while i < len
        invariant
            from <= i <= len == s.len(),
            s == text@,
            count_of(s) == digits_value(s, from as int, len as int),
            digits_value(s, from as int, i as int) == Ok::<int, Seq<char>>(v as int),
        decreases len - i,
    {
        let c = text.get_char(i);
        if !('0' <= c && c <= '9') {
            proof {
                lemma_digits(s, from as int, i + 1, len as int);
            }
            return Err("invalid digit found in string");
        }
        let d: usize = (c as u32 - '0' as u32) as usize;
        if v > (usize::MAX - d) / 10 {
            proof {
                lemma_digits(s, from as int, i + 1, len as int);
            }
            return Err("number too large to fit in target type");
        }
        v = 10 * v + d;
        i = i + 1;
    }
    Ok(v)
}

/// The count that a variable holds, or `default` where it is not set.
pub open spec fn count_or(env: Seq<(Seq<char>, Seq<char>)>, key: Seq<char>, default: int) -> int {
    match value_of(env, key) {
        Some(v) => count_of(v)->Ok_0,
        None => default,
    }
}

/// What is wrong with a variable that should hold a count.
pub open spec fn count_fault(env: Seq<(Seq<char>, Seq<char>)>, key: Seq<char>) -> Option<Fault> {
    match value_of(env, key) {
        Some(v) => match count_of(v) {
            Ok(_) => None,
            Err(source) => Some(Fault::Parse { var: key, source }),
        },
        None => None,
    }
}

fn count_var(env: &[(String, String)], key: &'static str, default: usize) -> (r: Result<
    usize,
    ConfigError,
>)
    ensures
        match r {
            Ok(n) => count_fault(vars(env@), key@) is None && n == count_or(
                vars(env@),
                key@,
                default as int,
            ),
            Err(e) => count_fault(vars(env@), key@) == Some(e@),
        },
{
    match lookup(env, key) {
        Some(v) => match read_count(v) {
            Ok(n) => Ok(n),
            Err(e) => Err(ConfigError::Parse { var: key, source: e.to_owned() }),
        },
        None => Ok(default),
    }
}

/// The amount that a variable holds, or `default` where it is not set.
pub open spec fn amount_or(env: Seq<(Seq<char>, Seq<char>)>, key: Seq<char>, default: int) -> int {
    match value_of(env, key) {
        Some(v) => decimal_of_text(v)->Ok_0,
        None => default,
    }
}

/// What is wrong with a variable that should hold an amount.
pub open spec fn amount_fault(env: Seq<(Seq<char>, Seq<char>)>, key: Seq<char>) -> Option<Fault> {
    match value_of(env, key) {
        Some(v) => match decimal_of_text(v) {
            Ok(_) => None,
            Err(source) => Some(Fault::Parse { var: key, source }),
        },
        None => None,
    }
}

fn amount_var(env: &[(String, String)], key: &'static str, default: Decimal) -> (r: Result<
    Decimal,
    ConfigError,
>)
    ensures
        match r {
            Ok(x) => amount_fault(vars(env@), key@) is None && x@ == amount_or(
                vars(env@),
                key@,
                default@,
            ),
            Err(e) => amount_fault(vars(env@), key@) == Some(e@),
        },
{
    match lookup(env, key) {
        Some(v) => match Decimal::parse(v) {
            Ok(x) => Ok(x),
            Err(source) => Err(ConfigError::Parse { var: key, source }),
        },
        None => Ok(default),
    }
}

/// The rate that a variable holds, or `default` where it is not set.
pub open spec fn rate_or(env: Seq<(Seq<char>, Seq<char>)>, key: Seq<char>, default: int) -> int {
    match value_of(env, key) {
        Some(v) => number_in(v)->0,
        None => default,
    }
}

/// What is wrong with a variable that should hold a rate.
pub open spec fn rate_fault(env: Seq<(Seq<char>, Seq<char>)>, key: Seq<char>) -> Option<Fault> {
    match value_of(env, key) {
        Some(v) => if number_in(v) is Some {
            None
        } else if v.len() == 0 {
            Some(Fault::Parse { var: key, source: "cannot parse float from empty string"@ })
        } else {
            Some(Fault::Parse { var: key, source: "invalid float literal"@ })
        },
        None => None,
    }
}

fn rate_var(env: &[(String, String)], key: &'static str, default: Decimal) -> (r: Result<
    Decimal,
    ConfigError,
>)
    ensures
        match r {
            Ok(x) => rate_fault(vars(env@), key@) is None && x@ == rate_or(
                vars(env@),
                key@,
                default@,
            ),
            Err(e) => rate_fault(vars(env@), key@) == Some(e@),
        },
{
    match lookup(env, key) {
        Some(v) => match read_number(v) {
            Some(x) => Ok(x),
            None => {
                let source = if v.unicode_len() == 0 {
                    "cannot parse float from empty string".to_owned()
                } else {
                    "invalid float literal".to_owned()
                };
                Err(ConfigError::Parse { var: key, source })
            },
        },
        None => Ok(default),
    }
}

// ── Main config struct ────────────────────────────────────────────

/// All runtime configuration for the bot.
///
/// Read from environment variables (or `.env`) with strict validation.
#[derive(Debug)]
pub struct Config {
    // Exchange credentials
    pub binance_api_key: String,
    pub binance_secret: String,
    // Telegram
    pub telegram_token: String,
    pub telegram_chat_id: String,
    // Runtime mode
    pub mode: Mode,
    // Capital management
    pub starting_capital: Decimal,
    pub kelly_fraction: Decimal,
    /// Max fraction of capital per trade.
    pub max_trade_size_pct: Decimal,
    // Scanner
    pub max_symbols: usize,
    /// 24-h quote volume filter.
    pub min_volume_usd: Decimal,
    // Learning / live-ready thresholds
    pub min_trades_for_live: usize,
    pub live_ready_win_rate: Decimal,
    pub live_ready_profit_factor: Decimal,
    // Risk management
    pub max_daily_loss_pct: Decimal,
    pub max_drawdown_pct: Decimal,
    // Signal quality filters
    pub min_confidence: Decimal,
    pub min_risk_reward: Decimal,
    // Database
    pub db_path: String,
}

/// What a configuration stands for.
pub struct Settings {
    pub binance_api_key: Seq<char>,
    pub binance_secret: Seq<char>,
    pub telegram_token: Seq<char>,
    pub telegram_chat_id: Seq<char>,
    pub mode: Mode,
    pub starting_capital: int,
    pub kelly_fraction: int,
    pub max_trade_size_pct: int,
    pub max_symbols: int,
    pub min_volume_usd: int,
    pub min_trades_for_live: int,
    pub live_ready_win_rate: int,
    pub live_ready_profit_factor: int,
    pub max_daily_loss_pct: int,
    pub max_drawdown_pct: int,
    pub min_confidence: int,
    pub min_risk_reward: int,
    pub db_path: Seq<char>,
}

impl View for Config {
    type V = Settings;

    open spec fn view(&self) -> Settings {
        Settings {
            binance_api_key: self.binance_api_key@,
            binance_secret: self.binance_secret@,
            telegram_token: self.telegram_token@,
            telegram_chat_id: self.telegram_chat_id@,
            mode: self.mode,
            starting_capital: self.starting_capital@,
            kelly_fraction: self.kelly_fraction@,
            max_trade_size_pct: self.max_trade_size_pct@,
            max_symbols: self.max_symbols as int,
            min_volume_usd: self.min_volume_usd@,
            min_trades_for_live: self.min_trades_for_live as int,
            live_ready_win_rate: self.live_ready_win_rate@,
            live_ready_profit_factor: self.live_ready_profit_factor@,
            max_daily_loss_pct: self.max_daily_loss_pct@,
            max_drawdown_pct: self.max_drawdown_pct@,
            min_confidence: self.min_confidence@,
            min_risk_reward: self.min_risk_reward@,
            db_path: self.db_path@,
        }
    }
}

impl Settings {
    /// What is wrong with the settings, if anything is.
    pub open spec fn fault(self) -> Option<Seq<char>> {
        if self.kelly_fraction <= 0 || self.kelly_fraction > one() {
            Some("KELLY_FRACTION must be in (0, 1]"@)
        } else if self.max_daily_loss_pct <= 0 || self.max_daily_loss_pct > dec(5, 1) {
            Some("MAX_DAILY_LOSS_PCT must be in (0, 0.5]"@)
        } else if self.live_ready_win_rate < dec(5, 1) || self.live_ready_win_rate > one() {
            Some("LIVE_READY_WIN_RATE must be in [0.5, 1.0]"@)
        } else if self.mode == Mode::Live && ("YOUR"@.is_prefix_of(self.binance_api_key)
            || "YOUR"@.is_prefix_of(self.binance_secret)) {
            Some("Live mode requires real Binance credentials"@)
        } else {
            None
        }
    }
}

/// The mode that the variables ask for, paper where they ask for none.
pub open spec fn mode_in(env: Seq<(Seq<char>, Seq<char>)>) -> Result<Mode, Fault> {
    match value_of(env, "BOT_MODE"@) {
        None => Ok(Mode::Paper),
        Some(v) => match mode_of(v) {
            Ok(m) => Ok(m),
            Err(e) => Err(Fault::Parse { var: "BOT_MODE"@, source: e.text() }),
        },
    }
}

/// What is wrong with the first of the numbers that are set and cannot be read,
/// in the order of the settings.
pub open spec fn unreadable(env: Seq<(Seq<char>, Seq<char>)>) -> Option<Fault> {
    if let Some(e) = amount_fault(env, "STARTING_CAPITAL_USD"@) {
        Some(e)
    } else if let Some(e) = rate_fault(env, "KELLY_FRACTION"@) {
        Some(e)
    } else if let Some(e) = rate_fault(env, "MAX_TRADE_SIZE_PCT"@) {
        Some(e)
    } else if let Some(e) = count_fault(env, "MAX_ACTIVE_SYMBOLS"@) {
        Some(e)
    } else if let Some(e) = rate_fault(env, "MIN_VOLUME_USD"@) {
        Some(e)
    } else if let Some(e) = count_fault(env, "MIN_TRADES_FOR_LIVE"@) {
        Some(e)
    } else if let Some(e) = rate_fault(env, "LIVE_READY_WIN_RATE"@) {
        Some(e)
    } else if let Some(e) = rate_fault(env, "LIVE_READY_PROFIT_FACTOR"@) {
        Some(e)
    } else if let Some(e) = rate_fault(env, "MAX_DAILY_LOSS_PCT"@) {
        Some(e)
    } else if let Some(e) = rate_fault(env, "MAX_DRAWDOWN_PCT"@) {
        Some(e)
    } else if let Some(e) = rate_fault(env, "MIN_CONFIDENCE"@) {
        Some(e)
    } else if let Some(e) = rate_fault(env, "MIN_RISK_REWARD"@) {
        Some(e)
    } else {
        None
    }
}

/// The settings that the variables hold: the credentials, the mode, and the
/// others with their defaults.
pub open spec fn settings_in(env: Seq<(Seq<char>, Seq<char>)>) -> Result<Settings, Fault> {
    match (
        value_of(env, "BINANCE_API_KEY"@),
        value_of(env, "BINANCE_SECRET"@),
        value_of(env, "TELEGRAM_TOKEN"@),
        value_of(env, "TELEGRAM_CHAT_ID"@),
        mode_in(env),
        unreadable(env),
    ) {
        (None, _, _, _, _, _) => Err(Fault::Missing("BINANCE_API_KEY"@)),
        (_, None, _, _, _, _) => Err(Fault::Missing("BINANCE_SECRET"@)),
        (_, _, None, _, _, _) => Err(Fault::Missing("TELEGRAM_TOKEN"@)),
        (_, _, _, None, _, _) => Err(Fault::Missing("TELEGRAM_CHAT_ID"@)),
        (_, _, _, _, Err(e), _) => Err(e),
        (_, _, _, _, _, Some(e)) => Err(e),
        (Some(key), Some(secret), Some(token), Some(chat), Ok(mode), None) => Ok(
            Settings {
                binance_api_key: key,
                binance_secret: secret,
                telegram_token: token,
                telegram_chat_id: chat,
                mode,
                starting_capital: amount_or(env, "STARTING_CAPITAL_USD"@, one()),
                kelly_fraction: rate_or(env, "KELLY_FRACTION"@, dec(25, 2)),
                max_trade_size_pct: rate_or(env, "MAX_TRADE_SIZE_PCT"@, dec(10, 2)),
                max_symbols: count_or(env, "MAX_ACTIVE_SYMBOLS"@, 15),
                min_volume_usd: rate_or(env, "MIN_VOLUME_USD"@, dec(2000000, 0)),
                min_trades_for_live: count_or(env, "MIN_TRADES_FOR_LIVE"@, 50),
                live_ready_win_rate: rate_or(env, "LIVE_READY_WIN_RATE"@, dec(54, 2)),
                live_ready_profit_factor: rate_or(env, "LIVE_READY_PROFIT_FACTOR"@, dec(15, 1)),
                max_daily_loss_pct: rate_or(env, "MAX_DAILY_LOSS_PCT"@, dec(5, 2)),
                max_drawdown_pct: rate_or(env, "MAX_DRAWDOWN_PCT"@, dec(15, 2)),
                min_confidence: rate_or(env, "MIN_CONFIDENCE"@, dec(76, 2)),
                min_risk_reward: rate_or(env, "MIN_RISK_REWARD"@, dec(20, 1)),
                db_path: match value_of(env, "DB_PATH"@) {
                    Some(v) => v,
                    None => "pro_bot.db"@,
                },
            },
        ),
    }
}

/// The settings that the variables hold, if nothing is wrong with them.
pub open spec fn configured(env: Seq<(Seq<char>, Seq<char>)>) -> Result<Settings, Fault> {
    match settings_in(env) {
        Ok(s) => match s.fault() {
            Some(why) => Err(Fault::Invalid(why)),
            None => Ok(s),
        },
        Err(e) => Err(e),
    }
}

impl Config {
    /// Builds a `Config` from the variables of an environment.
    ///
    /// # Errors
    /// [`ConfigError`] if a required variable is missing, or any variable that
    /// is set fails to parse or validate.
    pub fn from_env(env: &[(String, String)]) -> (r: Result<Config, ConfigError>)
        ensures
            match r {
                Ok(c) => configured(vars(env@)) == Ok::<Settings, Fault>(c@),
                Err(e) => configured(vars(env@)) == Err::<Settings, Fault>(e@),
            },
    {
        let binance_api_key = match require(env, "BINANCE_API_KEY") {
            Ok(v) => v,
            Err(e) => {
                return Err(e);
            },
        };
        let binance_secret = match require(env, "BINANCE_SECRET") {
            Ok(v) => v,
            Err(e) => {
                return Err(e);
            },
        };
        let telegram_token = match require(env, "TELEGRAM_TOKEN") {
            Ok(v) => v,
            Err(e) => {
                return Err(e);
            },
        };
        let telegram_chat_id = match require(env, "TELEGRAM_CHAT_ID") {
            Ok(v) => v,
            Err(e) => {
                return Err(e);
            },
        };
        let mode = match lookup(env, "BOT_MODE") {
            None => Mode::Paper,
            Some(v) => match Mode::read(v) {
                Ok(m) => m,
                Err(e) => {
                    return Err(ConfigError::Parse { var: "BOT_MODE", source: e.to_string() });
                },
            },
        };
        let starting_capital = match amount_var(env, "STARTING_CAPITAL_USD", Decimal::one()) {
            Ok(x) => x,
            Err(e) => {
                return Err(e);
            },
        };
        let kelly_fraction = match rate_var(env, "KELLY_FRACTION", Decimal::new(25, 2)) {
            Ok(x) => x,
            Err(e) => {
                return Err(e);
            },
        };
        let max_trade_size_pct = match rate_var(env, "MAX_TRADE_SIZE_PCT", Decimal::new(10, 2)) {
            Ok(x) => x,
            Err(e) => {
                return Err(e);
            },
        };
        let max_symbols = match count_var(env, "MAX_ACTIVE_SYMBOLS", 15) {
            Ok(x) => x,
            Err(e) => {
                return Err(e);
            },
        };
        let min_volume_usd = match rate_var(env, "MIN_VOLUME_USD", Decimal::new(2000000, 0)) {
            Ok(x) => x,
            Err(e) => {
                return Err(e);
            },
        };
        let min_trades_for_live = match count_var(env, "MIN_TRADES_FOR_LIVE", 50) {
            Ok(x) => x,
            Err(e) => {
                return Err(e);
            },
        };
        let live_ready_win_rate = match rate_var(env, "LIVE_READY_WIN_RATE", Decimal::new(54, 2)) {
            Ok(x) => x,
            Err(e) => {
                return Err(e);
            },
        };
        let live_ready_profit_factor = match rate_var(env, "LIVE_READY_PROFIT_FACTOR", Decimal::new(15, 1)) {
            Ok(x) => x,
            Err(e) => {
                return Err(e);
            },
        };
        let max_daily_loss_pct = match rate_var(env, "MAX_DAILY_LOSS_PCT", Decimal::new(5, 2)) {
            Ok(x) => x,
            Err(e) => {
                return Err(e);
            },
        };
        let max_drawdown_pct = match rate_var(env, "MAX_DRAWDOWN_PCT", Decimal::new(15, 2)) {
            Ok(x) => x,
            Err(e) => {
                return Err(e);
            },
        };
        let min_confidence = match rate_var(env, "MIN_CONFIDENCE", Decimal::new(76, 2)) {
            Ok(x) => x,
            Err(e) => {
                return Err(e);
            },
        };
        let min_risk_reward = match rate_var(env, "MIN_RISK_REWARD", Decimal::new(20, 1)) {
            Ok(x) => x,
            Err(e) => {
                return Err(e);
            },
        };
        let db_path = match lookup(env, "DB_PATH") {
            Some(v) => v.to_owned(),
            None => "pro_bot.db".to_owned(),
        };
        let c = Config {
            binance_api_key,
            binance_secret,
            telegram_token,
            telegram_chat_id,
            mode,
            starting_capital,
            kelly_fraction,
            max_trade_size_pct,
            max_symbols,
            min_volume_usd,
            min_trades_for_live,
            live_ready_win_rate,
            live_ready_profit_factor,
            max_daily_loss_pct,
            max_drawdown_pct,
            min_confidence,
            min_risk_reward,
            db_path,
        };
        match c.validate() {
            Ok(()) => Ok(c),
            Err(e) => Err(e),
        }
    }

    /// Checks the settings.
    pub fn validate(&self) -> (r: Result<(), ConfigError>)
        ensures
            match self@.fault() {
                Some(why) => r is Err && r->Err_0@ == Fault::Invalid(why),
                None => r is Ok,
            },
    {
        let zero = Decimal::zero();
        let one = Decimal::one();
        let half = Decimal::new(5, 1);
        if self.kelly_fraction.at_most(zero) || one.less(self.kelly_fraction) {
            return Err(ConfigError::Invalid("KELLY_FRACTION must be in (0, 1]".to_owned()));
        }
        if self.max_daily_loss_pct.at_most(zero) || half.less(self.max_daily_loss_pct) {
            return Err(ConfigError::Invalid("MAX_DAILY_LOSS_PCT must be in (0, 0.5]".to_owned()));
        }
        if self.live_ready_win_rate.less(half) || one.less(self.live_ready_win_rate) {
            return Err(
                ConfigError::Invalid("LIVE_READY_WIN_RATE must be in [0.5, 1.0]".to_owned()),
            );
        }
        if self.mode == Mode::Live && (starts_with(self.binance_api_key.as_str(), "YOUR")
            || starts_with(self.binance_secret.as_str(), "YOUR")) {
            return Err(
                ConfigError::Invalid("Live mode requires real Binance credentials".to_owned()),
            );
        }
        Ok(())
    }
}

/// A configuration that was accepted is within its limits, and in live mode
/// its credentials are no placeholders.
pub proof fn accepted_settings_are_sound(env: Seq<(Seq<char>, Seq<char>)>)
    ensures
        configured(env) matches Ok(s) ==> {
            &&& 0 < s.kelly_fraction <= one()
            &&& 0 < s.max_daily_loss_pct <= dec(5, 1)
            &&& dec(5, 1) <= s.live_ready_win_rate <= one()
            &&& s.mode == Mode::Live ==> !"YOUR"@.is_prefix_of(s.binance_api_key)
                && !"YOUR"@.is_prefix_of(s.binance_secret)
        },
{
}

/// Nothing that is set and cannot be read is passed over: a configuration that
/// was accepted holds what each variable says, and a default only for one that
/// is not set.
pub proof fn accepted_settings_were_read(env: Seq<(Seq<char>, Seq<char>)>)
    ensures
        configured(env) is Ok ==> {
            &&& mode_in(env) is Ok
            &&& amount_fault(env, "STARTING_CAPITAL_USD"@) is None
            &&& rate_fault(env, "KELLY_FRACTION"@) is None
            &&& rate_fault(env, "MAX_TRADE_SIZE_PCT"@) is None
            &&& count_fault(env, "MAX_ACTIVE_SYMBOLS"@) is None
            &&& rate_fault(env, "MIN_VOLUME_USD"@) is None
            &&& count_fault(env, "MIN_TRADES_FOR_LIVE"@) is None
            &&& rate_fault(env, "LIVE_READY_WIN_RATE"@) is None
            &&& rate_fault(env, "LIVE_READY_PROFIT_FACTOR"@) is None
            &&& rate_fault(env, "MAX_DAILY_LOSS_PCT"@) is None
            &&& rate_fault(env, "MAX_DRAWDOWN_PCT"@) is None
            &&& rate_fault(env, "MIN_CONFIDENCE"@) is None
            &&& rate_fault(env, "MIN_RISK_REWARD"@) is None
        },
{
}

} // verus!
