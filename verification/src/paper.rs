//! Paper trading — fills orders at live prices, against a balance that is
//! kept here, and never submits a real order.

use vstd::prelude::*;
use vstd::string::*;

use crate::binance::replied;
use crate::decimal::{difference, nearest_keeps_bounds, quotient, rounded, Decimal};
use crate::exchange::{quote, quoted, read_price, ExchangeError, Refusal};
use crate::json::{document, json_of_text, Json, Tree};
use crate::stamps::now_millis;
use crate::text::{ascii_lower, int_form, int_text, same_ignoring_case};
use crate::types::{OrderRequest, OrderResult, OrderSide, Price};

verus! {

// ── Replies ───────────────────────────────────────────────────────

/// What the reader gave for a public reply.
pub open spec fn public_reply(doc: Result<Tree, Seq<char>>, text: Seq<char>) -> Result<
    Tree,
    Refusal,
> {
    match doc {
        Ok(t) => Ok(t),
        Err(e) => Err(Refusal::Parse(e + ": "@ + text)),
    }
}

/// Handles what the JSON reader gave for the public reply `text`.
pub fn receive_public(doc: Result<Json, String>, text: &str) -> (r: Result<Json, ExchangeError>)
    ensures
        replied(r) == public_reply(document(doc), text@),
{
    match doc {
        Ok(json) => Ok(json),
        Err(e) => {
            let mut why = e;
            why.append(": ");
            why.append(text);
            Err(ExchangeError::Parse(why))
        },
    }
}

/// Parses the response to a public request.
pub fn parse_public(text: &str) -> (r: Result<Json, ExchangeError>)
    ensures
        replied(r) == public_reply(json_of_text(text@), text@),
{
    receive_public(Json::parse(text), text)
}

/// Reads the price of one symbol.
pub fn read_live_price(data: &Json) -> (r: Result<Price, ExchangeError>)
    ensures
        quoted(r) == quote(data@.at("price"@), "no price"@),
{
    let null = Json::Null;
    read_price(data.at("price", &null), "no price")
}

// ── Orders ────────────────────────────────────────────────────────

/// The paper account.
#[derive(Debug)]
pub struct PaperExchange {
    /// Paper USDT balance.
    pub balance: Decimal,
}

/// The balance that an order at `price` leaves, or why there is none.
pub open spec fn settled(balance: int, req: OrderRequest, price: int) -> Result<int, Refusal> {
    if quotient(req.quote_qty@, price) is None {
        Err(Refusal::OutOfRange)
    } else {
        match req.side {
            OrderSide::Sell => Ok(balance),
            OrderSide::Buy => if balance < req.quote_qty@ {
                Err(Refusal::InsufficientBalance)
            } else {
                match difference(balance, req.quote_qty@) {
                    Some(b) => Ok(b),
                    None => Err(Refusal::OutOfRange),
                }
            },
        }
    }
}

impl PaperExchange {
    pub fn new(starting_usdt: Decimal) -> (r: PaperExchange)
        ensures
            r.balance == starting_usdt,
    {
        PaperExchange { balance: starting_usdt }
    }

    /// Simulates a fill at `current`, the live price, at the time `now`.  Buys
    /// are deducted from the balance.
    pub fn fill(&mut self, req: OrderRequest, current: Price, now: i64) -> (r: Result<
        OrderResult,
        ExchangeError,
    >)
        ensures
            match settled(old(self).balance@, req, current@) {
                Err(e) => r is Err && r->Err_0@ == e && *final(self) == *old(self),
                Ok(b) => {
                    &&& final(self).balance@ == b
                    &&& r is Ok
                    &&& r->Ok_0.order_id@ == "PAPER-"@ + int_form(now as int)
                    &&& r->Ok_0.symbol@ == req.symbol@
                    &&& r->Ok_0.side == req.side
                    &&& Some(r->Ok_0.qty@) == (match quotient(req.quote_qty@, current@) {
                        Some(q) => Some(rounded(q, 6)),
                        None => None,
                    })
                    &&& r->Ok_0.price == current
                    &&& r->Ok_0.status@ == "FILLED"@
                },
            },
    {
        let qty = match req.quote_qty.checked_div(current.0) {
            Some(q) => q,
            None => {
                return Err(ExchangeError::OutOfRange);
            },
        };
        if req.side == OrderSide::Buy {
            if self.balance.less(req.quote_qty) {
                return Err(ExchangeError::InsufficientBalance);
            }
            match self.balance.checked_sub(req.quote_qty) {
                Some(b) => {
                    self.balance = b;
                },
                None => {
                    return Err(ExchangeError::OutOfRange);
                },
            }
        }
        let mut order_id = "PAPER-".to_owned();
        order_id.append(int_text(now).as_str());
        Ok(
            OrderResult {
                order_id,
                symbol: req.symbol,
                side: req.side,
                qty: qty.round_dp(6),
                price: current,
                status: "FILLED".to_owned(),
            },
        )
    }

    /// Simulates a fill at the live price, now.
    pub fn place_order(&mut self, req: OrderRequest, current: Price) -> (r: Result<
        OrderResult,
        ExchangeError,
    >)
        ensures
            match settled(old(self).balance@, req, current@) {
                Err(e) => r is Err && r->Err_0@ == e && *final(self) == *old(self),
                Ok(b) => {
                    &&& final(self).balance@ == b
                    &&& r is Ok
                    &&& r->Ok_0.symbol@ == req.symbol@
                    &&& r->Ok_0.side == req.side
                    &&& Some(r->Ok_0.qty@) == (match quotient(req.quote_qty@, current@) {
                        Some(q) => Some(rounded(q, 6)),
                        None => None,
                    })
                    &&& r->Ok_0.price == current
                    &&& r->Ok_0.status@ == "FILLED"@
                    &&& exists|now: i64|
                        now >= 0 && r->Ok_0.order_id@ == "PAPER-"@ + #[trigger] int_form(now as int)
                },
            },
    {
        self.fill(req, current, now_millis())
    }

    /// Available balance of an asset: of USDT, in any case of its letters, the
    /// paper balance.
    pub fn balance(&self, asset: &str) -> (r: Decimal)
        ensures
            asset@.map_values(|c: char| ascii_lower(c)) == "USDT"@.map_values(
                |c: char| ascii_lower(c),
            ) ==> r == self.balance,
            asset@.map_values(|c: char| ascii_lower(c)) != "USDT"@.map_values(
                |c: char| ascii_lower(c),
            ) ==> r@ == 0,
    {
        if same_ignoring_case(asset, "USDT") {
            self.balance
        } else {
            Decimal::zero()
        }
    }
}

/// No order takes a balance below zero.
pub proof fn balance_stays_covered(balance: int, req: OrderRequest, price: int)
    requires
        balance >= 0,
    ensures
        settled(balance, req, price) matches Ok(b) ==> b >= 0,
{
    if balance >= req.quote_qty@ {
        nearest_keeps_bounds(balance - req.quote_qty@, 1, 0);
    }
}

} // verus!
