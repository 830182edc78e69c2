//! Binance Spot REST: what goes into its requests and what comes out of its
//! replies.
//!
//! * **Retry with exponential back-off** — rate limits, transport errors and
//!   5xx replies are retried, three requests in all.
//! * **HMAC-SHA256 signing** — every private endpoint is signed.
//! * **Error detection** — every response is inspected for Binance's
//!   `{"code":-xxxx,"msg":"..."}` error envelope.

use vstd::prelude::*;
use vstd::string::*;
use vstd::utf8::*;

use crate::decimal::{
    lemma_pow10_positive, min_of, o_sum, pow10, product, quotient, rounded, try_sum, val, Decimal,
};
use crate::exchange::{amount, parse_dec, parse_price, quote, quoted, ExchangeError, Refusal};
use crate::json::{document, json_of_text, text_of_json, trees, Json, Tree};
use crate::stamps::now_millis;
use crate::text::{digits, digits_text, hex_padded, int_form, int_text, plain, plain_text};
use crate::types::{Interval, OrderRequest, OrderResult, OrderSide, Price, Symbol};

verus! {

// ── Replies ───────────────────────────────────────────────────────

/// A document that is no error envelope, or the error that it holds.
pub open spec fn opened(t: Tree) -> Result<Tree, Refusal> {
    let code = match t.get("code"@) {
        Some(c) => c.signed(),
        None => None,
    };
    match code {
        Some(c) => if c < 0 {
            Err(
                Refusal::Api {
                    code: c,
                    message: match t.at("msg"@).str() {
                        Some(m) => m,
                        None => "unknown"@,
                    },
                },
            )
        } else {
            Ok(t)
        },
        None => Ok(t),
    }
}

/// What the reader gave for a reply, without the envelope.
pub open spec fn received(doc: Result<Tree, Seq<char>>, text: Seq<char>) -> Result<Tree, Refusal> {
    match doc {
        Ok(t) => opened(t),
        Err(e) => Err(Refusal::Parse(e + ": "@ + text)),
    }
}

/// What a document that was read stands for.
pub open spec fn replied(r: Result<Json, ExchangeError>) -> Result<Tree, Refusal> {
    match r {
        Ok(j) => Ok(j@),
        Err(e) => Err(e@),
    }
}

/// Propagates Binance API error envelopes, `{"code":-1121,"msg":"..."}`.
pub fn check_envelope(json: Json) -> (r: Result<Json, ExchangeError>)
    ensures
        replied(r) == opened(json@),
{
    let code = match json.get("code") {
        Some(c) => c.as_i64(),
        None => None,
    };
    if let Some(code) = code {
        if code < 0 {
            let message = match json.str_at("msg") {
                Some(m) => m.to_owned(),
                None => "unknown".to_owned(),
            };
            return Err(ExchangeError::Api { code, message });
        }
    }
    Ok(json)
}

/// Handles what the JSON reader gave for the reply `text`.
pub fn receive(doc: Result<Json, String>, text: &str) -> (r: Result<Json, ExchangeError>)
    ensures
        replied(r) == received(document(doc), text@),
{
    match doc {
        Ok(json) => check_envelope(json),
        Err(e) => {
            let mut why = e;
            why.append(": ");
            why.append(text);
            Err(ExchangeError::Parse(why))
        },
    }
}

/// Parses an HTTP response: propagates Binance API error envelopes, otherwise
/// gives the document.
pub fn parse_response(text: &str) -> (r: Result<Json, ExchangeError>)
    ensures
        replied(r) == received(json_of_text(text@), text@),
{
    receive(Json::parse(text), text)
}

// ── Retry ─────────────────────────────────────────────────────────

/// How far a request has got.
#[derive(Debug, Clone, Copy)]
pub struct Retry {
    /// The requests that were answered.
    pub attempt: u8,
    /// The next pause, in milliseconds.
    pub delay_ms: u64,
}

/// How a request was answered.
#[derive(Debug, Clone, Copy)]
pub enum Reply {
    /// The transport failed.
    Failed,
    /// An HTTP status came.
    Status(u16),
}

/// What to do about an answer.
#[derive(Debug, Clone, Copy, PartialEq, Eq, Structural)]
pub enum Step {
    /// Read the body.
    Read,
    /// Pause for so many milliseconds, and send the request again.
    RetryAfter(u64),
    /// Report the transport's error.
    Fail,
    /// Pause for so many milliseconds, and report the rate limit.
    RateLimitAfter(u64),
}

/// Is an answer one that another request may change?
pub open spec fn transient(reply: Reply) -> bool {
    match reply {
        Reply::Failed => true,
        Reply::Status(s) => s == 429 || 500 <= s <= 599,
    }
}

impl Retry {
    /// One of the three requests is out, and the pauses double.
    pub open spec fn wf(self) -> bool {
        ||| self.attempt == 0 && self.delay_ms == 300
        ||| self.attempt == 1 && self.delay_ms == 600
        ||| self.attempt == 2 && self.delay_ms == 1200
    }

    pub open spec fn next(self, reply: Reply) -> Step {
        if !transient(reply) {
            Step::Read
        } else if self.attempt < 2 {
            Step::RetryAfter(self.delay_ms)
        } else {
            match reply {
                Reply::Failed => Step::Fail,
                Reply::Status(s) => if s == 429 {
                    Step::RateLimitAfter(self.delay_ms)
                } else {
                    Step::Read
                },
            }
        }
    }

    /// The state after a pause.
    pub open spec fn later(self) -> Retry {
        Retry { attempt: (self.attempt + 1) as u8, delay_ms: (self.delay_ms * 2) as u64 }
    }

    pub fn new() -> (r: Retry)
        ensures
            r == (Retry { attempt: 0, delay_ms: 300 }),
            r.wf(),
    {
        Retry { attempt: 0, delay_ms: 300 }
    }

    /// Decides what to do about an answer.
    pub fn step(&mut self, reply: Reply) -> (r: Step)
        requires
            old(self).wf(),
        ensures
            r == old(self).next(reply),
            *final(self) == (if r is RetryAfter {
                old(self).later()
            } else {
                *old(self)
            }),
            r is RetryAfter ==> final(self).wf(),
    {
        let limited = match reply {
            Reply::Failed => false,
            Reply::Status(s) => s == 429,
        };
        let failed = match reply {
            Reply::Failed => true,
            Reply::Status(_) => false,
        };
        let broken = match reply {
            Reply::Failed => false,
            Reply::Status(s) => 500 <= s && s <= 599,
        };
        if !limited && !failed && !broken {
            return Step::Read;
        }
        if self.attempt < 2 {
            let pause = self.delay_ms;
            self.attempt = self.attempt + 1;
            self.delay_ms = self.delay_ms * 2;
            return Step::RetryAfter(pause);
        }
        if failed {
            Step::Fail
        } else if limited {
            Step::RateLimitAfter(self.delay_ms)
        } else {
            Step::Read
        }
    }
}

/// Whatever the answers are, at most three requests go out, with pauses of
/// 300 and 600 milliseconds between them.
pub proof fn at_most_three_requests(a: Reply, b: Reply, c: Reply)
    ensures
        ({
            let first = Retry { attempt: 0, delay_ms: 300 };
            &&& first.next(a) is RetryAfter ==> {
                &&& first.next(a) == Step::RetryAfter(300)
                &&& first.later().next(b) is RetryAfter ==> {
                    &&& first.later().next(b) == Step::RetryAfter(600)
                    &&& !(first.later().later().next(c) is RetryAfter)
                }
            }
        }),
{
}

// ── Requests ──────────────────────────────────────────────────────

pub fn price_url(symbol: &Symbol) -> (r: String)
    ensures
        r@ == "https://api.binance.com/api/v3/ticker/price?symbol="@ + symbol@,
{
    let mut r = "https://api.binance.com/api/v3/ticker/price?symbol=".to_owned();
    r.append(symbol.as_str());
    r
}

pub fn prices_url() -> (r: &'static str)
    ensures
        r@ == "https://api.binance.com/api/v3/ticker/price"@,
{
    "https://api.binance.com/api/v3/ticker/price"
}

pub fn interval_str(i: Interval) -> (r: &'static str)
    ensures
        r@ == i.text(),
{
    match i {
        Interval::OneMinute => "1m",
        Interval::FiveMinutes => "5m",
        Interval::FifteenMinutes => "15m",
        Interval::OneHour => "1h",
        Interval::FourHours => "4h",
        Interval::OneDay => "1d",
    }
}

pub fn klines_url(symbol: &Symbol, interval: Interval, limit: u32) -> (r: String)
    ensures
        r@ == "https://api.binance.com/api/v3/klines?symbol="@ + symbol@ + "&interval="@
            + interval.text() + "&limit="@ + digits(limit as int),
{
    let mut r = "https://api.binance.com/api/v3/klines?symbol=".to_owned();
    r.append(symbol.as_str());
    r.append("&interval=");
    r.append(interval_str(interval));
    r.append("&limit=");
    r.append(digits_text(limit as u128).as_str());
    r
}

pub fn exchange_info_url() -> (r: &'static str)
    ensures
        r@ == "https://api.binance.com/api/v3/exchangeInfo"@,
{
    "https://api.binance.com/api/v3/exchangeInfo"
}

pub fn tickers_url() -> (r: &'static str)
    ensures
        r@ == "https://api.binance.com/api/v3/ticker/24hr"@,
{
    "https://api.binance.com/api/v3/ticker/24hr"
}

// ── HMAC-SHA256 signing ───────────────────────────────────────────

/// What HMAC-SHA256 gives for a key and a message.
pub uninterp spec fn hmac_sha256(key: Seq<u8>, message: Seq<u8>) -> Seq<u8>;

/// `hmac::Hmac<sha2::Sha256>`, fed the message and finalised: the 32 bytes of
/// its tag.  It takes a key of any length.
#[verifier::external_body]
fn outside_hmac(key: &[u8], message: &[u8]) -> (r: Vec<u8>)
    ensures
        r@ == hmac_sha256(key@, message@),
        r@.len() == 32,
{
    let mut mac = <hmac::Hmac<sha2::Sha256> as hmac::Mac>::new_from_slice(key).expect("HMAC");
    hmac::Mac::update(&mut mac, message);
    hmac::Mac::finalize(mac).into_bytes().to_vec()
}

/// The first `n` bytes, each as two hexadecimal digits.
pub open spec fn hex_of(bytes: Seq<u8>, n: int) -> Seq<char>
    decreases n,
{
    if n <= 0 {
        seq![]
    } else {
        hex_of(bytes, n - 1) + hex_padded(bytes[n - 1] as int, 2)
    }
}

/// `hex::encode`: each byte as two lower-case hexadecimal digits.
#[verifier::external_body]
fn outside_hex(bytes: &[u8]) -> (r: String)
    ensures
        r@ == hex_of(bytes@, bytes@.len() as int),
{
    hex::encode(bytes)
}

/// The signature of a query under a secret.
pub open spec fn signature(secret: Seq<char>, query: Seq<char>) -> Seq<char> {
    let tag = hmac_sha256(encode_utf8(secret), encode_utf8(query));
    hex_of(tag, tag.len() as int)
}

/// A query with its timestamp.
pub open spec fn stamped(params: Seq<char>, ts: i64) -> Seq<char> {
    params + "&timestamp="@ + int_form(ts as int)
}

/// A signed request.
pub open spec fn signed(
    secret: Seq<char>,
    path: Seq<char>,
    params: Seq<char>,
    ts: i64,
) -> Seq<char> {
    "https://api.binance.com"@ + path + "?"@ + stamped(params, ts) + "&signature="@ + signature(
        secret,
        stamped(params, ts),
    )
}

/// The credentials of a Binance account.
pub struct BinanceExchange {
    pub api_key: String,
    pub secret: String,
}

impl BinanceExchange {
    pub fn new(api_key: &str, secret: &str) -> (r: BinanceExchange)
        ensures
            r.api_key@ == api_key@,
            r.secret@ == secret@,
    {
        BinanceExchange { api_key: api_key.to_owned(), secret: secret.to_owned() }
    }

    pub fn sign(&self, query: &str) -> (r: String)
        ensures
            r@ == signature(self.secret@, query@),
    {
        let tag = outside_hmac(self.secret.as_str().as_bytes(), query.as_bytes());
        outside_hex(tag.as_slice())
    }

    /// The URL of a private request that is made at the time `ts`.
    pub fn signed_url_at(&self, path: &str, params: &str, ts: i64) -> (r: String)
        ensures
            r@ == signed(self.secret@, path@, params@, ts),
    {
        let mut query = params.to_owned();
        query.append("&timestamp=");
        query.append(int_text(ts).as_str());
        let sig = self.sign(query.as_str());
        let mut url = "https://api.binance.com".to_owned();
        url.append(path);
        url.append("?");
        url.append(query.as_str());
        url.append("&signature=");
        url.append(sig.as_str());
        url
    }

    /// The URL of a private request that is made now.
    pub fn signed_url(&self, path: &str, params: &str) -> (r: String)
        ensures
            exists|ts: i64| ts >= 0 && r@ == #[trigger] signed(self.secret@, path@, params@, ts),
    {
        let ts = now_millis();
        self.signed_url_at(path, params, ts)
    }
}

// ── Orders ────────────────────────────────────────────────────────

impl OrderSide {
    pub open spec fn text(self) -> Seq<char> {
        match self {
            OrderSide::Buy => "BUY"@,
            OrderSide::Sell => "SELL"@,
        }
    }
}

/// A quantity rounded to at most two decimals, with the decimals that it has
/// then.
pub open spec fn order_quantity(x: int, scale: nat) -> Seq<char> {
    let s = min_of(scale as int, 2) as nat;
    plain(rounded(x, 2) / pow10((28 - s) as nat), s)
}

pub fn order_params(req: &OrderRequest) -> (r: String)
    ensures
        r@ == "symbol="@ + req.symbol@ + "&side="@ + req.side.text()
            + "&type=MARKET&quoteOrderQty="@ + order_quantity(
            req.quote_qty@,
            req.quote_qty.spec_scale(),
        ),
{
    let qty = req.quote_qty.round_dp(2);
    let side = match req.side {
        OrderSide::Buy => "BUY",
        OrderSide::Sell => "SELL",
    };
    let scale = qty.scale();
    proof {
        let p = pow10((28 - scale) as nat);
        lemma_pow10_positive((28 - scale) as nat);
        qty.lemma_view();
        let m = qty.spec_mantissa();
        assert(m * p == p * m) by (nonlinear_arith);
        vstd::arithmetic::div_mod::lemma_div_multiples_vanish(m, p);
    }
    let mut r = "symbol=".to_owned();
    r.append(req.symbol.as_str());
    r.append("&side=");
    r.append(side);
    r.append("&type=MARKET&quoteOrderQty=");
    r.append(plain_text(qty).as_str());
    r
}

pub fn cancel_params(symbol: &Symbol) -> (r: String)
    ensures
        r@ == "symbol="@ + symbol@,
{
    let mut r = "symbol=".to_owned();
    r.append(symbol.as_str());
    r
}

/// The quantity of the first `n` fills.
pub open spec fn filled_qty(fills: Seq<Tree>, n: int) -> Option<int>
    decreases n,
{
    if n <= 0 {
        Some(0)
    } else {
        o_sum(filled_qty(fills, n - 1), Some(amount(fills[n - 1].at("qty"@))))
    }
}

/// The value of the first `n` fills.
pub open spec fn filled_value(fills: Seq<Tree>, n: int) -> Option<int>
    decreases n,
{
    if n <= 0 {
        Some(0)
    } else {
        o_sum(
            filled_value(fills, n - 1),
            product(amount(fills[n - 1].at("price"@)), amount(fills[n - 1].at("qty"@))),
        )
    }
}

/// The average price of an order's fills, zero where nothing was filled.
pub open spec fn average_price(data: Tree) -> Option<int> {
    match data.at("fills"@).array() {
        None => Some(0),
        Some(f) => match (filled_qty(f, f.len() as int), filled_value(f, f.len() as int)) {
            (Some(qty), Some(value)) => if qty == 0 {
                Some(0)
            } else {
                quotient(value, qty)
            },
            _ => None,
        },
    }
}

fn fill_price(data: &Json) -> (r: Option<Decimal>)
    ensures
        val(r) == average_price(data@),
{
    let fills = match data.array_at("fills") {
        Some(v) => v,
        None => {
            return Some(Decimal::zero());
        },
    };
    let ghost f = trees(fills@);
    let null = Json::Null;
    let mut qty = Some(Decimal::zero());
    let mut value = Some(Decimal::zero());
    let mut i: usize = 0;
    while i < fills.len()
        invariant
            i <= fills@.len(),
            f == trees(fills@),
            null@ == Tree::Null,
            val(qty) == filled_qty(f, i as int),
            val(value) == filled_value(f, i as int),
        decreases fills@.len() - i,
    {
        let x = &fills[i];
        assert(f[i as int] == x@);
        let q = parse_dec(x.at("qty", &null));
        let p = parse_dec(x.at("price", &null));
        qty = try_sum(qty, Some(q));
        value = try_sum(value, p.checked_mul(q));
        i = i + 1;
    }
    match (qty, value) {
        (Some(q), Some(v)) => if q.is_zero() {
            Some(Decimal::zero())
        } else {
            v.checked_div(q)
        },
        _ => None,
    }
}

/// Reads the fill result of a market order.
pub fn read_order(data: &Json, req: OrderRequest) -> (r: Result<OrderResult, ExchangeError>)
    ensures
        match average_price(data@) {
            None => r is Err && r->Err_0@ == Refusal::OutOfRange,
            Some(price) => {
                &&& r is Ok
                &&& r->Ok_0.order_id@ == text_of_json(data@.at("orderId"@))
                &&& r->Ok_0.symbol@ == req.symbol@
                &&& r->Ok_0.side == req.side
                &&& r->Ok_0.qty@ == amount(data@.at("executedQty"@))
                &&& r->Ok_0.price@ == price
                &&& r->Ok_0.status@ == (match data@.at("status"@).str() {
                    Some(s) => s,
                    None => "UNKNOWN"@,
                })
            },
        },
{
    let null = Json::Null;
    let price = match fill_price(data) {
        Some(p) => p,
        None => {
            return Err(ExchangeError::OutOfRange);
        },
    };
    let status = match data.str_at("status") {
        Some(s) => s.to_owned(),
        None => "UNKNOWN".to_owned(),
    };
    Ok(
        OrderResult {
            order_id: data.at("orderId", &null).to_string(),
            symbol: req.symbol,
            side: req.side,
            qty: parse_dec(data.at("executedQty", &null)),
            price: Price(price),
            status,
        },
    )
}

// ── Price and balance ─────────────────────────────────────────────

/// Reads the price of one symbol.
pub fn read_one_price(data: &Json) -> (r: Result<Price, ExchangeError>)
    ensures
        quoted(r) == quote(data@.at("price"@), "price not a string"@),
{
    let null = Json::Null;
    parse_price(data.at("price", &null))
}

/// The free amount of the first of the balances from `i` on that is in the
/// asset, zero where none is.
pub open spec fn free_from(balances: Seq<Tree>, asset: Seq<char>, i: int) -> int
    decreases balances.len() - i,
{
    if i >= balances.len() {
        0
    } else if balances[i].at("asset"@).str() == Some(asset) {
        amount(balances[i].at("free"@))
    } else {
        free_from(balances, asset, i + 1)
    }
}

/// Reads the available balance of an asset.
pub fn read_balance(data: &Json, asset: &str) -> (r: Result<Decimal, ExchangeError>)
    ensures
        match data@.at("balances"@).array() {
            Some(b) => r is Ok && r->Ok_0@ == free_from(b, asset@, 0),
            None => r is Err && r->Err_0@ == Refusal::Parse("no balances"@),
        },
{
    let list = match data.array_at("balances") {
        Some(v) => v,
        None => {
            return Err(ExchangeError::Parse("no balances".to_owned()));
        },
    };
    let ghost b = trees(list@);
    let null = Json::Null;
    let mut i: usize = 0;
    while i < list.len()
        invariant
            i <= list@.len(),
            b == trees(list@),
            null@ == Tree::Null,
            data@.at("balances"@).array() == Some(b),
            free_from(b, asset@, 0) == free_from(b, asset@, i as int),
        decreases list@.len() - i,
    {
        let x = &list[i];
        assert(b[i as int] == x@);
        if x.is_str_at("asset", asset) {
            return Ok(parse_dec(x.at("free", &null)));
        }
        i = i + 1;
    }
    Ok(Decimal::zero())
}

} // verus!
