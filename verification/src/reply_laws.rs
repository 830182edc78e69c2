//! What is read from the documents that an exchange sends, told by their members
//! alone.

use vstd::prelude::*;
use vstd::string::*;

use crate::binance::{
    average_price, filled_qty, filled_value, free_from, opened, Reply, Retry, Step,
};
use crate::decimal::{decimal_of_text, product, quotient};
use crate::exchange::{
    amount, candles_before, candles_of, item_symbol, item_ticker, prices_before, prices_of,
    row_candle, symbols_before, symbols_of, tickers_before, tickers_of, wanted, Refusal, Ticker,
    Venue,
};
use crate::json::{member, Tree};
use crate::stamps::in_calendar;
use crate::sums::{adds_exactly, sum_of, sum_stays_exact};
use crate::text::{number_in, unicode_upper};
use crate::types::{Bar, Symbol};

verus! {

// ── Members ───────────────────────────────────────────────────────

proof fn lemma_member(s: Seq<(Seq<char>, Tree)>, key: Seq<char>, i: int)
    requires
        0 <= i <= s.len(),
    ensures
        member(s, key, i) is None <==> forall|j: int|
            i <= j < s.len() ==> (#[trigger] s[j]).0 != key,
        forall|j: int|
            i <= j < s.len() && (#[trigger] s[j]).0 == key && (forall|k: int|
                i <= k < j ==> (#[trigger] s[k]).0 != key) ==> member(s, key, i) == Some(s[j].1),
    decreases s.len() - i,
{
    if i < s.len() {
        lemma_member(s, key, i + 1);
    }
}

/// An object has just the members that it lists, each with the first value
/// listed under its name; nothing else has members.
pub proof fn members_are_the_listed_ones(s: Seq<(Seq<char>, Tree)>, key: Seq<char>, j: int)
    ensures
        Tree::Object(s).get(key) is None <==> forall|k: int|
            0 <= k < s.len() ==> (#[trigger] s[k]).0 != key,
        0 <= j < s.len() && s[j].0 == key && (forall|k: int|
            0 <= k < j ==> (#[trigger] s[k]).0 != key) ==> Tree::Object(s).get(key) == Some(s[j].1),
{
    lemma_member(s, key, 0);
}

// ── Prices ────────────────────────────────────────────────────────

/// Does an item quote a price for one of the symbols, and which?
pub open spec fn quotes(t: Tree, symbols: Seq<Symbol>, name: Seq<char>, price: int) -> bool {
    &&& item_symbol(t) == name
    &&& exists|i: int| 0 <= i < symbols.len() && (#[trigger] symbols[i])@ == name
    &&& t.at("price"@).str() matches Some(s) && decimal_of_text(s) == Ok::<int, Seq<char>>(price)
}

proof fn lemma_prices_prefix(items: Seq<Tree>, t: Tree, symbols: Seq<Symbol>, n: int)
    requires
        n <= items.len(),
    ensures
        prices_before(items.push(t), symbols, n) == prices_before(items, symbols, n),
    decreases n,
{
    if n > 0 {
        lemma_prices_prefix(items, t, symbols, n - 1);
        assert(items.push(t)[n - 1] == items[n - 1]);
    }
}

/// One more item sets the price of the symbol that it quotes, if that is asked
/// for, and changes no other.
pub proof fn an_item_sets_its_price(
    items: Seq<Tree>,
    t: Tree,
    symbols: Seq<Symbol>,
    name: Seq<char>,
)
    ensures
        ({
            let before = prices_of(Tree::Array(items), symbols)->Ok_0;
            let after = prices_of(Tree::Array(items.push(t)), symbols)->Ok_0;
            &&& prices_of(Tree::Array(items), symbols) is Ok
            &&& prices_of(Tree::Array(items.push(t)), symbols) is Ok
            &&& forall|p: int|
                #[trigger] quotes(t, symbols, name, p) ==> after.contains_key(name) && after[name]
                    == p
            &&& (forall|p: int| !#[trigger] quotes(t, symbols, name, p)) ==> {
                &&& after.contains_key(name) <==> before.contains_key(name)
                &&& before.contains_key(name) ==> after[name] == before[name]
            }
        }),
        prices_of(Tree::Array(Seq::empty()), symbols) == Ok::<Map<Seq<char>, int>, Refusal>(
            Map::empty(),
        ),
{
    let n = items.len() as int;
    lemma_prices_prefix(items, t, symbols, n);
    assert(items.push(t)[n] == t);
    if item_symbol(t) == name {
        if let Some(s) = t.at("price"@).str() {
            if let Ok(p) = decimal_of_text(s) {
                assert(wanted(symbols, name) ==> quotes(t, symbols, name, p));
            }
        }
    }
}

// ── Candles ───────────────────────────────────────────────────────

/// Is a value the text of a number?
pub open spec fn says(t: Tree, x: int) -> bool {
    t.str() matches Some(s) && decimal_of_text(s) == Ok::<int, Seq<char>>(x)
}

/// Is an amount the number that its text says, and zero where it says none?
pub open spec fn measures(t: Tree, x: int) -> bool {
    match t.str() {
        Some(s) => match decimal_of_text(s) {
            Ok(y) => x == y,
            Err(_) => x == 0,
        },
        None => x == 0,
    }
}

/// Is a candle what a row says: open, high, low and close from the second to
/// the fifth value, the volume from the sixth, the quote volume from the eighth
/// and the taker volume from the tenth?
pub open spec fn is_row(t: Tree, symbol: Seq<char>, b: Bar) -> bool {
    &&& t.array() matches Some(k) && k.len() >= 10 && {
        &&& says(k[1], b.open)
        &&& says(k[2], b.high)
        &&& says(k[3], b.low)
        &&& says(k[4], b.close)
        &&& measures(k[5], b.volume)
        &&& measures(k[7], b.quote_volume)
        &&& measures(k[9], b.taker_buy_volume)
        &&& b.open_time == if k[0].signed() is Some && in_calendar(k[0].signed()->0) {
            k[0].signed()->0
        } else {
            0
        }
    }
    &&& b.symbol == symbol
    &&& b.is_closed
}

proof fn lemma_candles(rows: Seq<Tree>, symbol: Seq<char>, venue: Venue, n: int)
    requires
        0 <= n <= rows.len(),
    ensures
        candles_before(rows, symbol, venue, n) matches Ok(s) ==> s.len() == n && forall|i: int|
            0 <= i < n ==> is_row(rows[i], symbol, #[trigger] s[i]),
    decreases n,
{
    if n > 0 {
        lemma_candles(rows, symbol, venue, n - 1);
    }
}

/// There are as many candles as rows, and each is what its row says.
pub proof fn candles_are_their_rows(rows: Seq<Tree>, symbol: Seq<char>, venue: Venue)
    ensures
        candles_of(Tree::Array(rows), symbol, venue) matches Ok(s) ==> {
            &&& s.len() == rows.len()
            &&& forall|i: int| 0 <= i < s.len() ==> is_row(rows[i], symbol, #[trigger] s[i])
        },
{
    lemma_candles(rows, symbol, venue, rows.len() as int);
}

/// Has a row at least ten values, and numbers for its prices?
pub open spec fn readable(t: Tree) -> bool {
    &&& t.array() matches Some(k) && k.len() >= 10 && forall|j: int|
        1 <= j <= 4 ==> ((#[trigger] k[j]).str() is Some && decimal_of_text(k[j].str()->0) is Ok)
}

proof fn lemma_readable(rows: Seq<Tree>, symbol: Seq<char>, venue: Venue, n: int)
    requires
        0 <= n <= rows.len(),
    ensures
        candles_before(rows, symbol, venue, n) is Ok <==> forall|i: int|
            0 <= i < n ==> readable(#[trigger] rows[i]),
    decreases n,
{
    if n > 0 {
        lemma_readable(rows, symbol, venue, n - 1);
        let t = rows[n - 1];
        assert(row_candle(t, symbol, venue) is Ok <==> readable(t)) by {
            if t.array() is Some && t.array()->0.len() >= 10 {
                let k = t.array()->0;
                let ok = |j: int| k[j].str() is Some && decimal_of_text(k[j].str()->0) is Ok;
                assert(readable(t) <==> ok(1) && ok(2) && ok(3) && ok(4));
            }
        }
        assert((forall|i: int| 0 <= i < n ==> readable(#[trigger] rows[i])) <==> readable(
            rows[n - 1],
        ) && (forall|i: int| 0 <= i < n - 1 ==> readable(#[trigger] rows[i])));
    }
}

/// Candles are read just where every row is readable.
pub proof fn readable_rows_are_read(rows: Seq<Tree>, symbol: Seq<char>, venue: Venue)
    ensures
        candles_of(Tree::Array(rows), symbol, venue) is Ok <==> forall|i: int|
            0 <= i < rows.len() ==> readable(#[trigger] rows[i]),
{
    lemma_readable(rows, symbol, venue, rows.len() as int);
}

// ── Symbols and tickers ───────────────────────────────────────────

proof fn lemma_lists_prefix(items: Seq<Tree>, t: Tree, n: int)
    requires
        n <= items.len(),
    ensures
        symbols_before(items.push(t), n) == symbols_before(items, n),
        tickers_before(items.push(t), n) == tickers_before(items, n),
    decreases n,
{
    if n > 0 {
        lemma_lists_prefix(items, t, n - 1);
        assert(items.push(t)[n - 1] == items[n - 1]);
    }
}

/// Of a document with one more symbol, that one is listed too just where it has
/// a name, is quoted in USDT, is trading and may be traded spot.
pub proof fn tradable_symbols_are_listed(
    data: Tree,
    more: Tree,
    items: Seq<Tree>,
    t: Tree,
    venue: Venue,
)
    requires
        data.at("symbols"@) == Tree::Array(items),
        more.at("symbols"@) == Tree::Array(items.push(t)),
    ensures
        symbols_of(data, venue) is Ok && symbols_of(more, venue) is Ok,
        ({
            let before = symbols_of(data, venue)->Ok_0;
            let after = symbols_of(more, venue)->Ok_0;
            let name = t.at("symbol"@).str();
            if name is Some && t.at("quoteAsset"@) == Tree::Str("USDT"@) && t.at("status"@)
                == Tree::Str("TRADING"@) && t.at("isSpotTradingAllowed"@) == Tree::Bool(true) {
                after == before.push(unicode_upper(name->0))
            } else {
                after == before
            }
        }),
{
    lemma_lists_prefix(items, t, items.len() as int);
    assert(items.push(t)[items.len() as int] == t);
}

/// Is a ticker what an item says of its day?
pub open spec fn is_day(t: Tree, x: Ticker) -> bool {
    &&& t.at("symbol"@).str() matches Some(s) && x.symbol == unicode_upper(s)
    &&& says(t.at("lastPrice"@), x.last_price)
    &&& says(t.at("highPrice"@), x.high)
    &&& says(t.at("lowPrice"@), x.low)
    &&& measures(t.at("volume"@), x.volume)
    &&& measures(t.at("quoteVolume"@), x.quote_volume)
    &&& match t.at("priceChangePercent"@).str() {
        Some(p) => match number_in(p) {
            Some(y) => x.price_change_pct == y,
            None => x.price_change_pct == 0,
        },
        None => x.price_change_pct == 0,
    }
    &&& match t.at("count"@) {
        Tree::Unsigned(n) => x.count == n,
        _ => x.count == 0,
    }
}

/// Has an item a name that ends in USDT and its last, high and low price?
pub open spec fn is_quoted(t: Tree) -> bool {
    &&& t.at("symbol"@).str() matches Some(s) && "USDT"@.is_suffix_of(unicode_upper(s))
    &&& t.at("lastPrice"@).str() matches Some(s) && decimal_of_text(s) is Ok
    &&& t.at("highPrice"@).str() matches Some(s) && decimal_of_text(s) is Ok
    &&& t.at("lowPrice"@).str() matches Some(s) && decimal_of_text(s) is Ok
}

/// One more item adds its ticker just where it is quoted, and that says what the
/// item says.
pub proof fn quoted_items_have_a_ticker(items: Seq<Tree>, t: Tree, venue: Venue)
    ensures
        ({
            let before = tickers_of(Tree::Array(items), venue)->Ok_0;
            let after = tickers_of(Tree::Array(items.push(t)), venue)->Ok_0;
            &&& tickers_of(Tree::Array(items), venue) is Ok
            &&& tickers_of(Tree::Array(items.push(t)), venue) is Ok
            &&& is_quoted(t) ==> after.len() == before.len() + 1 && after == before.push(
                after.last(),
            ) && is_day(t, after.last())
            &&& !is_quoted(t) ==> after == before
        }),
        tickers_of(Tree::Array(Seq::empty()), venue) == Ok::<Seq<Ticker>, Refusal>(Seq::empty()),
{
    lemma_lists_prefix(items, t, items.len() as int);
    assert(items.push(t)[items.len() as int] == t);
    if is_quoted(t) {
        assert(item_ticker(t) is Some);
    }
}

// ── Replies ───────────────────────────────────────────────────────

/// A reply is refused just where it has a code below zero; then the refusal has
/// that code and the message of the reply, "unknown" where there is none.
pub proof fn negative_codes_are_refusals(t: Tree)
    ensures
        opened(t) is Ok <==> !(t.at("code"@).signed() matches Some(c) && c < 0),
        opened(t) is Ok ==> opened(t) == Ok::<Tree, Refusal>(t),
        t.at("code"@).signed() matches Some(c) && c < 0 && t.at("msg"@).str() is Some ==> opened(t)
            == Err::<Tree, Refusal>(
            Refusal::Api { code: t.at("code"@).signed()->0, message: t.at("msg"@).str()->0 },
        ),
        t.at("msg"@).str() is None && t.at("code"@).signed() is Some && t.at("code"@).signed()->0 < 0
            ==> opened(t) == Err::<Tree, Refusal>(
            Refusal::Api { code: t.at("code"@).signed()->0, message: "unknown"@ },
        ),
{
}

/// A request is repeated after a failure, a status of 429 or one of 500 to 599,
/// twice at most, and what comes last is read but for a failure and a status of
/// 429.
pub proof fn requests_are_repeated_twice(r: Retry, s: u16)
    requires
        r.wf(),
    ensures
        r.attempt < 2 && (s == 429 || 500 <= s < 600) ==> r.next(Reply::Status(s))
            == Step::RetryAfter(r.delay_ms),
        r.attempt < 2 ==> r.next(Reply::Failed) == Step::RetryAfter(r.delay_ms),
        r.attempt < 2 ==> r.later().wf() && r.later().attempt == r.attempt + 1
            && r.later().delay_ms == 2 * r.delay_ms,
        r.attempt == 2 ==> r.next(Reply::Failed) == Step::Fail,
        r.attempt == 2 ==> r.next(Reply::Status(429)) == Step::RateLimitAfter(r.delay_ms),
        r.attempt == 2 && s != 429 ==> r.next(Reply::Status(s)) == Step::Read,
        !(s == 429 || 500 <= s < 600) ==> r.next(Reply::Status(s)) == Step::Read,
{
}

// ── Orders and balances ───────────────────────────────────────────

/// The amounts that the fills bought.
pub open spec fn bought(f: Seq<Tree>) -> Seq<int> {
    f.map_values(|t: Tree| amount(t.at("qty"@)))
}

/// What the fills cost: each its price times its amount.
pub open spec fn paid(f: Seq<Tree>) -> Seq<int> {
    f.map_values(|t: Tree| product(amount(t.at("price"@)), amount(t.at("qty"@)))->0)
}

proof fn lemma_fills(f: Seq<Tree>, n: int)
    requires
        0 <= n <= f.len(),
        adds_exactly(0, bought(f)),
        adds_exactly(0, paid(f)),
        forall|i: int|
            0 <= i < f.len() ==> product(
                amount((#[trigger] f[i]).at("price"@)),
                amount(f[i].at("qty"@)),
            ) is Some,
    ensures
        filled_qty(f, n) == Some(sum_of(bought(f).take(n))),
        filled_value(f, n) == Some(sum_of(paid(f).take(n))),
    decreases n,
{
    if n > 0 {
        lemma_fills(f, n - 1);
        sum_stays_exact(0, bought(f), n - 1);
        sum_stays_exact(0, paid(f), n - 1);
        assert(product(
            amount(f[n - 1].at("price"@)),
            amount(f[n - 1].at("qty"@)),
        ) is Some);
    }
}

/// Where the sums are exact, the price of an order is what all its fills cost by
/// what all of them bought; zero where they bought nothing.
pub proof fn orders_cost_the_mean_of_their_fills(data: Tree, f: Seq<Tree>)
    requires
        data.at("fills"@) == Tree::Array(f),
        adds_exactly(0, bought(f)),
        adds_exactly(0, paid(f)),
        forall|i: int|
            0 <= i < f.len() ==> product(
                amount((#[trigger] f[i]).at("price"@)),
                amount(f[i].at("qty"@)),
            ) is Some,
    ensures
        average_price(data) == if sum_of(bought(f)) == 0 {
            Some(0)
        } else {
            quotient(sum_of(paid(f)), sum_of(bought(f)))
        },
{
    let n = f.len() as int;
    lemma_fills(f, n);
    assert(bought(f).take(n) =~= bought(f));
    assert(paid(f).take(n) =~= paid(f));
}

proof fn lemma_free(s: Seq<Tree>, asset: Seq<char>, i: int, j: int)
    requires
        0 <= i <= j <= s.len(),
        forall|k: int|
            i <= k < j ==> (#[trigger] s[k]).at("asset"@) != Tree::Str(asset),
    ensures
        free_from(s, asset, i) == free_from(s, asset, j),
    decreases j - i,
{
    if i < j {
        assert(s[i].at("asset"@) != Tree::Str(asset));
        lemma_free(s, asset, i + 1, j);
    }
}

/// The balance of an asset is what the first entry of that asset has free, and
/// zero without one.
pub proof fn balances_are_what_is_free(s: Seq<Tree>, asset: Seq<char>, j: int)
    requires
        0 <= j <= s.len(),
        forall|k: int|
            0 <= k < j ==> (#[trigger] s[k]).at("asset"@) != Tree::Str(asset),
        j < s.len() ==> s[j].at("asset"@) == Tree::Str(asset),
    ensures
        j < s.len() ==> measures(s[j].at("free"@), free_from(s, asset, 0)),
        j == s.len() ==> free_from(s, asset, 0) == 0,
{
    lemma_free(s, asset, 0, j);
}

// ── Numbers ───────────────────────────────────────────────────────

/// A whole number is read with its sign where it fits in 64 bits so, and
/// without one where it has none; nothing else is a number.
pub proof fn whole_numbers_are_read(t: Tree)
    ensures
        t.signed() == (match t {
            Tree::Unsigned(n) => if n < 0x8000_0000_0000_0000 {
                Some(n as int)
            } else {
                None
            },
            Tree::Negative(n) => Some(n as int),
            _ => None,
        }),
        t.unsigned() == (match t {
            Tree::Unsigned(n) => Some(n as int),
            _ => None,
        }),
{
}

} // verus!
