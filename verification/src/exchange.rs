//! What every trading venue shares: its errors, its market data, and how the
//! documents that hold these are read.

use vstd::prelude::*;
use vstd::string::*;

use crate::decimal::{decimal_of_text, Decimal};
use crate::json::{trees, Json, Tree};
use crate::stamps::{calendar_time, in_calendar};
use crate::text::{ends_with, int_form, int_text, number_in, read_number, unicode_upper};
use crate::types::{bars, Bar, Candle, Price, Quantity, Symbol};

verus! {

// ── Error ─────────────────────────────────────────────────────────

#[derive(Debug)]
pub enum ExchangeError {
    /// The transport's message.
    Http(String),
    Api { code: i64, message: String },
    Parse(String),
    RateLimit,
    InsufficientBalance,
    SymbolNotFound(String),
    OrderRejected(String),
    PaperOnly,
    /// An amount left the decimal range.
    OutOfRange,
}

/// What an exchange error stands for.
pub enum Refusal {
    Http(Seq<char>),
    Api { code: int, message: Seq<char> },
    Parse(Seq<char>),
    RateLimit,
    InsufficientBalance,
    SymbolNotFound(Seq<char>),
    OrderRejected(Seq<char>),
    PaperOnly,
    OutOfRange,
}

impl View for ExchangeError {
    type V = Refusal;

    open spec fn view(&self) -> Refusal {
        match self {
            ExchangeError::Http(e) => Refusal::Http(e@),
            ExchangeError::Api { code, message } => Refusal::Api {
                code: *code as int,
                message: message@,
            },
            ExchangeError::Parse(e) => Refusal::Parse(e@),
            ExchangeError::RateLimit => Refusal::RateLimit,
            ExchangeError::InsufficientBalance => Refusal::InsufficientBalance,
            ExchangeError::SymbolNotFound(s) => Refusal::SymbolNotFound(s@),
            ExchangeError::OrderRejected(s) => Refusal::OrderRejected(s@),
            ExchangeError::PaperOnly => Refusal::PaperOnly,
            ExchangeError::OutOfRange => Refusal::OutOfRange,
        }
    }
}

impl Refusal {
    pub open spec fn text(self) -> Seq<char> {
        match self {
            Refusal::Http(e) => "HTTP transport error: "@ + e,
            Refusal::Api { code, message } => "Exchange API error "@ + int_form(code) + ": "@
                + message,
            Refusal::Parse(e) => "Response parse error: "@ + e,
            Refusal::RateLimit => "Rate limit exceeded — back off and retry"@,
            Refusal::InsufficientBalance => "Insufficient balance for order"@,
            Refusal::SymbolNotFound(s) => "Symbol not found: "@ + s,
            Refusal::OrderRejected(s) => "Order rejected: "@ + s,
            Refusal::PaperOnly => "Paper mode: operation not available"@,
            Refusal::OutOfRange => "Amount out of range"@,
        }
    }
}

fn with_label(label: &str, text: &String) -> (r: String)
    ensures
        r@ == label@ + text@,
{
    let mut r = label.to_owned();
    r.append(text.as_str());
    r
}

impl ExchangeError {
    pub fn to_string(&self) -> (r: String)
        ensures
            r@ == self@.text(),
    {
        match self {
            ExchangeError::Http(e) => with_label("HTTP transport error: ", e),
            ExchangeError::Api { code, message } => {
                let mut r = "Exchange API error ".to_owned();
                r.append(int_text(*code).as_str());
                r.append(": ");
                r.append(message.as_str());
                r
            },
            ExchangeError::Parse(e) => with_label("Response parse error: ", e),
            ExchangeError::RateLimit => "Rate limit exceeded — back off and retry".to_owned(),
            ExchangeError::InsufficientBalance => "Insufficient balance for order".to_owned(),
            ExchangeError::SymbolNotFound(s) => with_label("Symbol not found: ", s),
            ExchangeError::OrderRejected(s) => with_label("Order rejected: ", s),
            ExchangeError::PaperOnly => "Paper mode: operation not available".to_owned(),
            ExchangeError::OutOfRange => "Amount out of range".to_owned(),
        }
    }
}

// ── Ticker snapshot ───────────────────────────────────────────────

/// 24-hour rolling statistics for one symbol.
#[derive(Debug)]
pub struct Ticker24h {
    pub symbol: Symbol,
    pub price_change_pct: Decimal,
    pub last_price: Price,
    /// In the base currency.
    pub volume: Decimal,
    /// In the quote currency (USDT).
    pub quote_volume: Decimal,
    pub high: Price,
    pub low: Price,
    /// The number of trades.
    pub count: u64,
}

/// What a ticker stands for.
pub struct Ticker {
    pub symbol: Seq<char>,
    pub price_change_pct: int,
    pub last_price: int,
    pub volume: int,
    pub quote_volume: int,
    pub high: int,
    pub low: int,
    pub count: int,
}

impl View for Ticker24h {
    type V = Ticker;

    open spec fn view(&self) -> Ticker {
        Ticker {
            symbol: self.symbol@,
            price_change_pct: self.price_change_pct@,
            last_price: self.last_price@,
            volume: self.volume@,
            quote_volume: self.quote_volume@,
            high: self.high@,
            low: self.low@,
            count: self.count as int,
        }
    }
}

impl Clone for Ticker24h {
    fn clone(&self) -> (r: Ticker24h)
        ensures
            r@ == self@,
    {
        Ticker24h {
            symbol: self.symbol.clone(),
            price_change_pct: self.price_change_pct,
            last_price: self.last_price,
            volume: self.volume,
            quote_volume: self.quote_volume,
            high: self.high,
            low: self.low,
            count: self.count,
        }
    }
}

pub open spec fn tickers(s: Seq<Ticker24h>) -> Seq<Ticker> {
    s.map_values(|t: Ticker24h| t@)
}

// ── Prices by symbol ──────────────────────────────────────────────

/// Prices by symbol.  A price that is put in replaces the symbol's earlier
/// one.
#[derive(Debug)]
pub struct PriceMap {
    pub entries: Vec<(Symbol, Price)>,
}

/// The prices that the first `n` entries leave.
pub open spec fn price_entries(s: Seq<(Symbol, Price)>, n: int) -> Map<Seq<char>, int>
    decreases n,
{
    if n <= 0 {
        Map::empty()
    } else {
        price_entries(s, n - 1).insert(s[n - 1].0@, s[n - 1].1@)
    }
}

impl View for PriceMap {
    type V = Map<Seq<char>, int>;

    open spec fn view(&self) -> Map<Seq<char>, int> {
        price_entries(self.entries@, self.entries@.len() as int)
    }
}

proof fn lemma_entries_prefix(a: Seq<(Symbol, Price)>, b: Seq<(Symbol, Price)>, n: int)
    requires
        n <= a.len() <= b.len(),
        forall|i: int| 0 <= i < a.len() ==> a[i] == b[i],
    ensures
        price_entries(a, n) == price_entries(b, n),
    decreases n,
{
    if n > 0 {
        lemma_entries_prefix(a, b, n - 1);
    }
}

impl PriceMap {
    pub fn new() -> (r: PriceMap)
        ensures
            r@ == Map::<Seq<char>, int>::empty(),
    {
        PriceMap { entries: Vec::new() }
    }

    pub fn insert(&mut self, symbol: Symbol, price: Price)
        ensures
            final(self)@ == old(self)@.insert(symbol@, price@),
    {
        let ghost before = self.entries@;
        self.entries.push((symbol, price));
        proof {
            lemma_entries_prefix(before, self.entries@, before.len() as int);
        }
    }

    pub fn get(&self, symbol: &Symbol) -> (r: Option<Price>)
        ensures
            match r {
                Some(p) => self@.contains_key(symbol@) && self@[symbol@] == p@,
                None => !self@.contains_key(symbol@),
            },
    {
        let mut n: usize = self.entries.len();
        while n > 0
            invariant
                n <= self.entries@.len(),
                self@.contains_key(symbol@) == price_entries(
                    self.entries@,
                    n as int,
                ).contains_key(symbol@),
                self@.contains_key(symbol@) ==> self@[symbol@] == price_entries(
                    self.entries@,
                    n as int,
                )[symbol@],
            decreases n,
        {
            if self.entries[n - 1].0.same(symbol) {
                return Some(self.entries[n - 1].1);
            }
            n = n - 1;
        }
        None
    }
}

// ── Venues ────────────────────────────────────────────────────────

/// Where a document came from.  The two venues read the same market data, but
/// word their complaints in their own way.
#[derive(Debug, Clone, Copy, PartialEq, Eq, Structural)]
pub enum Venue {
    Binance,
    Paper,
}

impl Venue {
    pub open spec fn text(self) -> Seq<char> {
        match self {
            Venue::Binance => "Binance"@,
            Venue::Paper => "Paper"@,
        }
    }

    /// Human-readable venue name.
    pub fn name(&self) -> (r: &'static str)
        ensures
            r@ == self.text(),
    {
        match self {
            Venue::Binance => "Binance",
            Venue::Paper => "Paper",
        }
    }
}

// ── Scalars ───────────────────────────────────────────────────────

/// The price that a value holds as a string; `missing` is the complaint where
/// it is no string.
pub open spec fn quote(t: Tree, missing: Seq<char>) -> Result<int, Refusal> {
    match t.str() {
        None => Err(Refusal::Parse(missing)),
        Some(s) => match decimal_of_text(s) {
            Ok(x) => Ok(x),
            Err(e) => Err(Refusal::Parse(e)),
        },
    }
}

/// What a price that was read stands for.
pub open spec fn quoted(r: Result<Price, ExchangeError>) -> Result<int, Refusal> {
    match r {
        Ok(p) => Ok(p@),
        Err(e) => Err(e@),
    }
}

/// The amount that a value holds as a string, zero where it holds none.
pub open spec fn amount(t: Tree) -> int {
    match t.str() {
        None => 0,
        Some(s) => match decimal_of_text(s) {
            Ok(x) => x,
            Err(_) => 0,
        },
    }
}

pub fn read_price(v: &Json, missing: &str) -> (r: Result<Price, ExchangeError>)
    ensures
        quoted(r) == quote(v@, missing@),
{
    match v.as_str() {
        None => Err(ExchangeError::Parse(missing.to_owned())),
        Some(s) => match Decimal::parse(s) {
            Ok(x) => Ok(Price(x)),
            Err(e) => Err(ExchangeError::Parse(e)),
        },
    }
}

pub fn parse_price(v: &Json) -> (r: Result<Price, ExchangeError>)
    ensures
        quoted(r) == quote(v@, "price not a string"@),
{
    read_price(v, "price not a string")
}

pub fn parse_dec(v: &Json) -> (r: Decimal)
    ensures
        r@ == amount(v@),
{
    match v.as_str() {
        None => Decimal::zero(),
        Some(s) => match Decimal::parse(s) {
            Ok(x) => x,
            Err(_) => Decimal::zero(),
        },
    }
}

fn list_of(data: &Json) -> (r: Result<&Vec<Json>, ExchangeError>)
    ensures
        match data@.array() {
            Some(s) => r is Ok && trees(r->Ok_0@) == s,
            None => r is Err && r->Err_0@ == Refusal::Parse("expected array"@),
        },
{
    match data.as_array() {
        Some(v) => Ok(v),
        None => Err(ExchangeError::Parse("expected array".to_owned())),
    }
}

// ── Prices ────────────────────────────────────────────────────────

/// The symbol that an item is for.
pub open spec fn item_symbol(t: Tree) -> Seq<char> {
    unicode_upper(
        match t.at("symbol"@).str() {
            Some(s) => s,
            None => ""@,
        },
    )
}

pub open spec fn wanted(symbols: Seq<Symbol>, s: Seq<char>) -> bool {
    exists|i: int| 0 <= i < symbols.len() && (#[trigger] symbols[i])@ == s
}

/// The prices of the wanted symbols among the first `n` items.
pub open spec fn prices_before(items: Seq<Tree>, symbols: Seq<Symbol>, n: int) -> Map<
    Seq<char>,
    int,
>
    decreases n,
{
    if n <= 0 {
        Map::empty()
    } else {
        let before = prices_before(items, symbols, n - 1);
        let sym = item_symbol(items[n - 1]);
        match quote(items[n - 1].at("price"@), "price not a string"@) {
            Ok(p) => if wanted(symbols, sym) {
                before.insert(sym, p)
            } else {
                before
            },
            Err(_) => before,
        }
    }
}

pub open spec fn prices_of(data: Tree, symbols: Seq<Symbol>) -> Result<
    Map<Seq<char>, int>,
    Refusal,
> {
    match data.array() {
        Some(items) => Ok(prices_before(items, symbols, items.len() as int)),
        None => Err(Refusal::Parse("expected array"@)),
    }
}

fn is_wanted(symbols: &[Symbol], s: &Symbol) -> (r: bool)
    ensures
        r == wanted(symbols@, s@),
{
    let mut i: usize = 0;
    while i < symbols.len()
        invariant
            i <= symbols@.len(),
            forall|j: int| 0 <= j < i ==> (#[trigger] symbols@[j])@ != s@,
        decreases symbols@.len() - i,
    {
        if symbols[i].same(s) {
            return true;
        }
        i = i + 1;
    }
    false
}

/// Reads the prices of some symbols.  An item without a symbol or a price is
/// passed over.
pub fn read_prices(data: &Json, symbols: &[Symbol]) -> (r: Result<PriceMap, ExchangeError>)
    ensures
        match r {
            Ok(m) => prices_of(data@, symbols@) == Ok::<Map<Seq<char>, int>, Refusal>(m@),
            Err(e) => prices_of(data@, symbols@) == Err::<Map<Seq<char>, int>, Refusal>(e@),
        },
{
    let arr = match list_of(data) {
        Ok(v) => v,
        Err(e) => {
            return Err(e);
        },
    };
    let ghost items = trees(arr@);
    let null = Json::Null;
    let mut map = PriceMap::new();
    let mut i: usize = 0;
    while i < arr.len()
        invariant
            i <= arr@.len(),
            items == trees(arr@),
            null@ == Tree::Null,
            map@ == prices_before(items, symbols@, i as int),
        decreases arr@.len() - i,
    {
        let item = &arr[i];
        assert(items[i as int] == item@);
        let sym = match item.str_at("symbol") {
            Some(s) => Symbol::new(s),
            None => Symbol::new(""),
        };
        if is_wanted(symbols, &sym) {
            if let Ok(p) = parse_price(item.at("price", &null)) {
                map.insert(sym, p);
            }
        }
        i = i + 1;
    }
    Ok(map)
}

// ── Candles ───────────────────────────────────────────────────────

/// The complaint about a row that is no candle.
pub open spec fn bad_row(venue: Venue) -> Refusal {
    match venue {
        Venue::Binance => Refusal::Parse("bad kline"@),
        Venue::Paper => Refusal::Parse("bad kline row"@),
    }
}

/// A price in a row.
pub open spec fn row_price(t: Tree, venue: Venue) -> Result<int, Refusal> {
    match (venue, quote(t, "price not a string"@)) {
        (Venue::Paper, Err(_)) => Err(Refusal::Parse("bad price"@)),
        (_, r) => r,
    }
}

/// The time in a row, the epoch where it holds none that the calendar has.
pub open spec fn row_time(t: Tree) -> int {
    match t.signed() {
        Some(ms) => if in_calendar(ms) {
            ms
        } else {
            0
        },
        None => 0,
    }
}

/// The candle that a row of at least ten fields holds.
pub open spec fn row_candle(t: Tree, symbol: Seq<char>, venue: Venue) -> Result<Bar, Refusal> {
    match t.array() {
        None => Err(bad_row(venue)),
        Some(k) => if k.len() < 10 {
            Err(bad_row(venue))
        } else {
            match (
                row_price(k[1], venue),
                row_price(k[2], venue),
                row_price(k[3], venue),
                row_price(k[4], venue),
            ) {
                (Err(e), _, _, _) => Err(e),
                (_, Err(e), _, _) => Err(e),
                (_, _, Err(e), _) => Err(e),
                (_, _, _, Err(e)) => Err(e),
                (Ok(open), Ok(high), Ok(low), Ok(close)) => Ok(
                    Bar {
                        symbol,
                        open_time: row_time(k[0]),
                        open,
                        high,
                        low,
                        close,
                        volume: amount(k[5]),
                        quote_volume: amount(k[7]),
                        taker_buy_volume: amount(k[9]),
                        is_closed: true,
                    },
                ),
            }
        },
    }
}

/// The candles of the first `n` rows, or the first complaint.
pub open spec fn candles_before(
    rows: Seq<Tree>,
    symbol: Seq<char>,
    venue: Venue,
    n: int,
) -> Result<Seq<Bar>, Refusal>
    decreases n,
{
    if n <= 0 {
        Ok(seq![])
    } else {
        match (
            candles_before(rows, symbol, venue, n - 1),
            row_candle(rows[n - 1], symbol, venue),
        ) {
            (Ok(s), Ok(b)) => Ok(s.push(b)),
            (Err(e), _) => Err(e),
            (_, Err(e)) => Err(e),
        }
    }
}

pub open spec fn candles_of(data: Tree, symbol: Seq<char>, venue: Venue) -> Result<
    Seq<Bar>,
    Refusal,
> {
    match data.array() {
        Some(rows) => candles_before(rows, symbol, venue, rows.len() as int),
        None => Err(Refusal::Parse("expected array"@)),
    }
}

fn read_row_price(v: &Json, venue: Venue) -> (r: Result<Price, ExchangeError>)
    ensures
        quoted(r) == row_price(v@, venue),
{
    match parse_price(v) {
        Ok(p) => Ok(p),
        Err(e) => match venue {
            Venue::Paper => Err(ExchangeError::Parse("bad price".to_owned())),
            Venue::Binance => Err(e),
        },
    }
}

fn read_row(t: &Json, symbol: &Symbol, venue: Venue) -> (r: Result<Candle, ExchangeError>)
    ensures
        match r {
            Ok(c) => row_candle(t@, symbol@, venue) == Ok::<Bar, Refusal>(c@),
            Err(e) => row_candle(t@, symbol@, venue) == Err::<Bar, Refusal>(e@),
        },
{
    let bad = match venue {
        Venue::Binance => "bad kline",
        Venue::Paper => "bad kline row",
    };
    let k = match t.as_array() {
        Some(k) => k,
        None => {
            return Err(ExchangeError::Parse(bad.to_owned()));
        },
    };
    if k.len() < 10 {
        return Err(ExchangeError::Parse(bad.to_owned()));
    }
    assert(forall|i: int| 0 <= i < k@.len() ==> trees(k@)[i] == (#[trigger] k@[i])@);
    let ts = match k[0].as_i64() {
        Some(x) => x,
        None => 0,
    };
    let open_time = match calendar_time(ts) {
        Some(x) => x,
        None => 0,
    };
    let open = match read_row_price(&k[1], venue) {
        Ok(p) => p,
        Err(e) => {
            return Err(e);
        },
    };
    let high = match read_row_price(&k[2], venue) {
        Ok(p) => p,
        Err(e) => {
            return Err(e);
        },
    };
    let low = match read_row_price(&k[3], venue) {
        Ok(p) => p,
        Err(e) => {
            return Err(e);
        },
    };
    let close = match read_row_price(&k[4], venue) {
        Ok(p) => p,
        Err(e) => {
            return Err(e);
        },
    };
    Ok(
        Candle {
            symbol: symbol.clone(),
            open_time,
            open,
            high,
            low,
            close,
            volume: Quantity(parse_dec(&k[5])),
            quote_volume: parse_dec(&k[7]),
            taker_buy_volume: parse_dec(&k[9]),
            is_closed: true,
        },
    )
}

proof fn lemma_candles_fail(rows: Seq<Tree>, symbol: Seq<char>, venue: Venue, i: int, j: int)
    requires
        0 <= i <= j,
        candles_before(rows, symbol, venue, i) is Err,
    ensures
        candles_before(rows, symbol, venue, j) == candles_before(rows, symbol, venue, i),
    decreases j - i,
{
    if i < j {
        lemma_candles_fail(rows, symbol, venue, i, j - 1);
    }
}

/// Reads historical OHLCV candles.
pub fn read_candles(data: &Json, symbol: &Symbol, venue: Venue) -> (r: Result<
    Vec<Candle>,
    ExchangeError,
>)
    ensures
        match r {
            Ok(v) => candles_of(data@, symbol@, venue) == Ok::<Seq<Bar>, Refusal>(bars(v@)),
            Err(e) => candles_of(data@, symbol@, venue) == Err::<Seq<Bar>, Refusal>(e@),
        },
{
    let arr = match list_of(data) {
        Ok(v) => v,
        Err(e) => {
            return Err(e);
        },
    };
    let ghost rows = trees(arr@);
    let mut out: Vec<Candle> = Vec::new();
    let mut i: usize = 0;
    assert(bars(out@) =~= seq![]);
    while i < arr.len()
        invariant
            i <= arr@.len(),
            rows == trees(arr@),
            data@.array() == Some(rows),
            candles_before(rows, symbol@, venue, i as int) == Ok::<Seq<Bar>, Refusal>(bars(out@)),
        decreases arr@.len() - i,
    {
        assert(rows[i as int] == arr@[i as int]@);
        match read_row(&arr[i], symbol, venue) {
            Ok(c) => {
                let ghost before = out@;
                out.push(c);
                assert(bars(out@) =~= bars(before).push(c@));
            },
            Err(e) => {
                proof {
                    lemma_candles_fail(rows, symbol@, venue, i + 1, rows.len() as int);
                }
                return Err(e);
            },
        }
        i = i + 1;
    }
    Ok(out)
}

// ── Symbols ───────────────────────────────────────────────────────

/// Is the item a spot pair that is quoted in USDT and trading?
pub open spec fn tradable(t: Tree) -> bool {
    &&& t.at("quoteAsset"@).str() == Some("USDT"@)
    &&& t.at("status"@).str() == Some("TRADING"@)
    &&& t.at("isSpotTradingAllowed"@).bool() == Some(true)
}

/// The symbols of the tradable pairs among the first `n` items.
pub open spec fn symbols_before(items: Seq<Tree>, n: int) -> Seq<Seq<char>>
    decreases n,
{
    if n <= 0 {
        seq![]
    } else {
        let before = symbols_before(items, n - 1);
        match items[n - 1].at("symbol"@).str() {
            Some(s) => if tradable(items[n - 1]) {
                before.push(unicode_upper(s))
            } else {
                before
            },
            None => before,
        }
    }
}

pub open spec fn names(s: Seq<Symbol>) -> Seq<Seq<char>> {
    s.map_values(|x: Symbol| x@)
}

/// The symbols of a document.  Where it lists none, Binance complains and
/// paper trading has none.
pub open spec fn symbols_of(data: Tree, venue: Venue) -> Result<Seq<Seq<char>>, Refusal> {
    match (data.at("symbols"@).array(), venue) {
        (Some(items), _) => Ok(symbols_before(items, items.len() as int)),
        (None, Venue::Binance) => Err(Refusal::Parse("no symbols"@)),
        (None, Venue::Paper) => Ok(seq![]),
    }
}

/// Reads all actively trading USDT-quoted spot symbols.
pub fn read_symbols(data: &Json, venue: Venue) -> (r: Result<Vec<Symbol>, ExchangeError>)
    ensures
        match r {
            Ok(v) => symbols_of(data@, venue) == Ok::<Seq<Seq<char>>, Refusal>(names(v@)),
            Err(e) => symbols_of(data@, venue) == Err::<Seq<Seq<char>>, Refusal>(e@),
        },
{
    let mut out: Vec<Symbol> = Vec::new();
    assert(names(out@) =~= seq![]);
    let arr = match (data.array_at("symbols"), venue) {
        (Some(v), _) => v,
        (None, Venue::Binance) => {
            return Err(ExchangeError::Parse("no symbols".to_owned()));
        },
        (None, Venue::Paper) => {
            return Ok(out);
        },
    };
    let ghost items = trees(arr@);
    let mut i: usize = 0;
    while i < arr.len()
        invariant
            i <= arr@.len(),
            items == trees(arr@),
            names(out@) == symbols_before(items, i as int),
        decreases arr@.len() - i,
    {
        let item = &arr[i];
        assert(items[i as int] == item@);
        if item.is_str_at("quoteAsset", "USDT") && item.is_str_at("status", "TRADING")
            && item.is_true_at("isSpotTradingAllowed") {
            if let Some(s) = item.str_at("symbol") {
                let ghost before = out@;
                let sym = Symbol::new(s);
                out.push(sym);
                assert(names(out@) =~= names(before).push(sym@));
            }
        }
        i = i + 1;
    }
    Ok(out)
}

// ── Tickers ───────────────────────────────────────────────────────

/// The ticker that an item holds, if it is for a pair quoted in USDT and has
/// its three prices.
pub open spec fn item_ticker(t: Tree) -> Option<Ticker> {
    match t.at("symbol"@).str() {
        None => None,
        Some(s) => {
            let sym = unicode_upper(s);
            match (
                quote(t.at("lastPrice"@), ""@),
                quote(t.at("highPrice"@), ""@),
                quote(t.at("lowPrice"@), ""@),
            ) {
                (Ok(last), Ok(high), Ok(low)) => if "USDT"@.is_suffix_of(sym) {
                    Some(
                        Ticker {
                            symbol: sym,
                            price_change_pct: match t.at("priceChangePercent"@).str() {
                                Some(p) => match number_in(p) {
                                    Some(x) => x,
                                    None => 0,
                                },
                                None => 0,
                            },
                            last_price: last,
                            volume: amount(t.at("volume"@)),
                            quote_volume: amount(t.at("quoteVolume"@)),
                            high,
                            low,
                            count: match t.at("count"@).unsigned() {
                                Some(n) => n,
                                None => 0,
                            },
                        },
                    )
                } else {
                    None
                },
                _ => None,
            }
        },
    }
}

/// The tickers of the first `n` items.
pub open spec fn tickers_before(items: Seq<Tree>, n: int) -> Seq<Ticker>
    decreases n,
{
    if n <= 0 {
        seq![]
    } else {
        match item_ticker(items[n - 1]) {
            Some(t) => tickers_before(items, n - 1).push(t),
            None => tickers_before(items, n - 1),
        }
    }
}

/// The tickers of a document.  Where it is no list, Binance complains and
/// paper trading has none.
pub open spec fn tickers_of(data: Tree, venue: Venue) -> Result<Seq<Ticker>, Refusal> {
    match (data.array(), venue) {
        (Some(items), _) => Ok(tickers_before(items, items.len() as int)),
        (None, Venue::Binance) => Err(Refusal::Parse("expected array"@)),
        (None, Venue::Paper) => Ok(seq![]),
    }
}

fn read_ticker(t: &Json) -> (r: Option<Ticker24h>)
    ensures
        match r {
            Some(x) => item_ticker(t@) == Some(x@),
            None => item_ticker(t@) is None,
        },
{
    let null = Json::Null;
    let symbol = match t.str_at("symbol") {
        Some(s) => Symbol::new(s),
        None => {
            return None;
        },
    };
    if !ends_with(symbol.as_str(), "USDT") {
        return None;
    }
    let price_change_pct = match t.str_at("priceChangePercent") {
        Some(s) => match read_number(s) {
            Some(x) => x,
            None => Decimal::zero(),
        },
        None => Decimal::zero(),
    };
    let count = match t.at("count", &null).as_u64() {
        Some(n) => n,
        None => 0,
    };
    match (
        read_price(t.at("lastPrice", &null), ""),
        read_price(t.at("highPrice", &null), ""),
        read_price(t.at("lowPrice", &null), ""),
    ) {
        (Ok(last_price), Ok(high), Ok(low)) => Some(
            Ticker24h {
                symbol,
                price_change_pct,
                last_price,
                volume: parse_dec(t.at("volume", &null)),
                quote_volume: parse_dec(t.at("quoteVolume", &null)),
                high,
                low,
                count,
            },
        ),
        _ => None,
    }
}

/// Reads the 24-h rolling statistics of all USDT symbols.
pub fn read_tickers(data: &Json, venue: Venue) -> (r: Result<Vec<Ticker24h>, ExchangeError>)
    ensures
        match r {
            Ok(v) => tickers_of(data@, venue) == Ok::<Seq<Ticker>, Refusal>(tickers(v@)),
            Err(e) => tickers_of(data@, venue) == Err::<Seq<Ticker>, Refusal>(e@),
        },
{
    let mut out: Vec<Ticker24h> = Vec::new();
    assert(tickers(out@) =~= seq![]);
    let arr = match (list_of(data), venue) {
        (Ok(v), _) => v,
        (Err(e), Venue::Binance) => {
            return Err(e);
        },
        (Err(_), Venue::Paper) => {
            return Ok(out);
        },
    };
    let ghost items = trees(arr@);
    let mut i: usize = 0;
    while i < arr.len()
        invariant
            i <= arr@.len(),
            items == trees(arr@),
            tickers(out@) == tickers_before(items, i as int),
        decreases arr@.len() - i,
    {
        assert(items[i as int] == arr@[i as int]@);
        if let Some(t) = read_ticker(&arr[i]) {
            let ghost before = out@;
            out.push(t);
            assert(tickers(out@) =~= tickers(before).push(t@));
        }
        i = i + 1;
    }
    Ok(out)
}

} // verus!
