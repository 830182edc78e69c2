use trading_bot::binance::{
    cancel_params, check_envelope, exchange_info_url, interval_str, klines_url, order_params,
    parse_response, price_url, prices_url, read_balance, read_one_price, read_order, receive,
    tickers_url, BinanceExchange, Reply, Retry, Step,
};
use trading_bot::decimal::Decimal;
use trading_bot::exchange::{
    parse_dec, parse_price, read_candles, read_prices, read_symbols, read_tickers, ExchangeError,
    PriceMap, Venue,
};
use trading_bot::json::Json;
use trading_bot::paper::{parse_public, read_live_price, receive_public, PaperExchange};
use trading_bot::types::{Interval, OrderRequest, OrderSide, Price, Symbol};

fn json(text: &str) -> Json {
    Json::parse(text).unwrap()
}

fn dec(text: &str) -> Decimal {
    Decimal::parse(text).unwrap()
}

fn complaint<T>(r: Result<T, ExchangeError>) -> String {
    match r {
        Ok(_) => "none".to_string(),
        Err(e) => e.to_string(),
    }
}

fn order(side: OrderSide, qty: &str) -> OrderRequest {
    OrderRequest { symbol: Symbol::new("btcusdt"), side, quote_qty: dec(qty) }
}

// ── JSON ──────────────────────────────────────────────────────────

#[test]
fn json_is_read_by_kind() {
    let j = json(r#"{"a":[1,-2,1.5,"x",true,null],"b":{"c":18446744073709551615}}"#);
    let a = j.array_at("a").unwrap();
    assert_eq!(a.len(), 6);
    assert_eq!(a[0].as_i64(), Some(1));
    assert_eq!(a[0].as_u64(), Some(1));
    assert_eq!(a[1].as_i64(), Some(-2));
    assert_eq!(a[1].as_u64(), None);
    assert_eq!(a[2].as_i64(), None);
    assert_eq!(a[3].as_str(), Some("x"));
    assert!(matches!(a[4], Json::Bool(true)));
    assert!(matches!(a[5], Json::Null));
    let c = j.get("b").unwrap().get("c").unwrap();
    assert_eq!(c.as_u64(), Some(u64::MAX));
    assert_eq!(c.as_i64(), None);
    assert!(j.get("z").is_none());
    assert!(a[0].get("z").is_none());
    assert!(Json::parse("{").is_err());
}

#[test]
fn json_is_written_back() {
    for text in [
        "null", "true", "28457", "-3", "1.5", "\"a\\\"b\"", "[1,[],{}]", "{\"a\":1,\"b\":[null]}",
    ] {
        assert_eq!(json(text).to_string(), text);
    }
}

// ── Replies ───────────────────────────────────────────────────────

#[test]
fn an_error_envelope_is_propagated() {
    let r = parse_response(r#"{"code":-1121,"msg":"Invalid symbol."}"#);
    assert_eq!(complaint(r), "Exchange API error -1121: Invalid symbol.");
    let r = parse_response(r#"{"code":-1000}"#);
    assert_eq!(complaint(r), "Exchange API error -1000: unknown");
    assert_eq!(complaint(parse_response(r#"{"code":200,"msg":"ok"}"#)), "none");
    assert_eq!(complaint(parse_response("[]")), "none");
    assert_eq!(complaint(check_envelope(Json::Null)), "none");
}

#[test]
fn a_reply_that_is_no_json_is_quoted() {
    let message = complaint(parse_response("<html>"));
    assert!(message.starts_with("Response parse error: "), "{message}");
    assert!(message.ends_with(": <html>"), "{message}");
    let r = receive(Err("bad".to_string()), "xyz");
    assert_eq!(complaint(r), "Response parse error: bad: xyz");
    let r = receive_public(Err("bad".to_string()), "xyz");
    assert_eq!(complaint(r), "Response parse error: bad: xyz");
    // Paper trading does not look into the envelope.
    assert_eq!(complaint(parse_public(r#"{"code":-1121,"msg":"x"}"#)), "none");
    assert!(complaint(parse_public("<html>")).ends_with(": <html>"));
}

#[test]
fn exchange_errors_are_written_out() {
    let s = || "x".to_string();
    assert_eq!(ExchangeError::Http(s()).to_string(), "HTTP transport error: x");
    assert_eq!(ExchangeError::Parse(s()).to_string(), "Response parse error: x");
    assert_eq!(
        ExchangeError::RateLimit.to_string(),
        "Rate limit exceeded — back off and retry"
    );
    assert_eq!(
        ExchangeError::InsufficientBalance.to_string(),
        "Insufficient balance for order"
    );
    assert_eq!(ExchangeError::SymbolNotFound(s()).to_string(), "Symbol not found: x");
    assert_eq!(ExchangeError::OrderRejected(s()).to_string(), "Order rejected: x");
    assert_eq!(ExchangeError::PaperOnly.to_string(), "Paper mode: operation not available");
    assert_eq!(ExchangeError::OutOfRange.to_string(), "Amount out of range");
    assert_eq!(Venue::Binance.name(), "Binance");
    assert_eq!(Venue::Paper.name(), "Paper");
}

// ── Retry ─────────────────────────────────────────────────────────

#[test]
fn transient_answers_are_retried_twice() {
    for reply in [Reply::Failed, Reply::Status(429), Reply::Status(503)] {
        let mut r = Retry::new();
        assert_eq!(r.step(reply), Step::RetryAfter(300));
        assert_eq!(r.step(reply), Step::RetryAfter(600));
        let last = r.step(reply);
        match reply {
            Reply::Failed => assert_eq!(last, Step::Fail),
            Reply::Status(429) => assert_eq!(last, Step::RateLimitAfter(1200)),
            Reply::Status(_) => assert_eq!(last, Step::Read),
        }
    }
}

#[test]
fn other_answers_are_read() {
    let mut r = Retry::new();
    assert_eq!(r.step(Reply::Status(200)), Step::Read);
    assert_eq!(r.step(Reply::Status(400)), Step::Read);
    assert_eq!(r.step(Reply::Failed), Step::RetryAfter(300));
    assert_eq!(r.step(Reply::Status(200)), Step::Read);
}

// ── Requests ──────────────────────────────────────────────────────

#[test]
fn urls_of_the_public_requests() {
    let s = Symbol::new("btcusdt");
    assert_eq!(
        price_url(&s),
        "https://api.binance.com/api/v3/ticker/price?symbol=BTCUSDT"
    );
    assert_eq!(prices_url(), "https://api.binance.com/api/v3/ticker/price");
    assert_eq!(
        klines_url(&s, Interval::FifteenMinutes, 100),
        "https://api.binance.com/api/v3/klines?symbol=BTCUSDT&interval=15m&limit=100"
    );
    assert_eq!(exchange_info_url(), "https://api.binance.com/api/v3/exchangeInfo");
    assert_eq!(tickers_url(), "https://api.binance.com/api/v3/ticker/24hr");
    assert_eq!(interval_str(Interval::FourHours), "4h");
    assert_eq!(cancel_params(&s), "symbol=BTCUSDT");
}

#[test]
fn signatures_are_hmac_sha256_in_hex() {
    // Test case 2 of RFC 4231.
    let b = BinanceExchange::new("key", "Jefe");
    assert_eq!(
        b.sign("what do ya want for nothing?"),
        "5bdcc146bf60754e6a042426089575c75a003f089d2739839dec58b964ec3843"
    );
    assert_eq!(b.api_key, "key");
}

#[test]
fn private_requests_are_stamped_and_signed() {
    let b = BinanceExchange::new("key", "Jefe");
    let url = b.signed_url_at("/api/v3/order", "symbol=BTCUSDT", 1700000000000);
    let query = "symbol=BTCUSDT&timestamp=1700000000000";
    let expected =
        format!("https://api.binance.com/api/v3/order?{query}&signature={}", b.sign(query));
    assert_eq!(url, expected);
    let now = b.signed_url("/api/v3/account", "");
    assert!(now.starts_with("https://api.binance.com/api/v3/account?&timestamp=1"), "{now}");
}

#[test]
fn order_parameters_round_the_quantity() {
    assert_eq!(
        order_params(&order(OrderSide::Buy, "10.005")),
        "symbol=BTCUSDT&side=BUY&type=MARKET&quoteOrderQty=10.00"
    );
    assert_eq!(
        order_params(&order(OrderSide::Sell, "10.015")),
        "symbol=BTCUSDT&side=SELL&type=MARKET&quoteOrderQty=10.02"
    );
    assert_eq!(
        order_params(&order(OrderSide::Buy, "7.5")),
        "symbol=BTCUSDT&side=BUY&type=MARKET&quoteOrderQty=7.5"
    );
}

// ── Documents ─────────────────────────────────────────────────────

#[test]
fn prices_and_amounts_are_strings() {
    assert_eq!(parse_price(&json("\"1.25\"")).unwrap().0, dec("1.25"));
    assert_eq!(
        complaint(parse_price(&json("1.25"))),
        "Response parse error: price not a string"
    );
    assert!(complaint(parse_price(&json("\"x\""))).starts_with("Response parse error: "));
    assert_eq!(parse_dec(&json("\"1.25\"")), dec("1.25"));
    assert_eq!(parse_dec(&json("\"x\"")), Decimal::zero());
    assert_eq!(parse_dec(&json("1.25")), Decimal::zero());
    assert_eq!(read_one_price(&json(r#"{"price":"2"}"#)).unwrap().0, dec("2"));
    assert_eq!(
        complaint(read_one_price(&json("{}"))),
        "Response parse error: price not a string"
    );
    assert_eq!(complaint(read_live_price(&json("{}"))), "Response parse error: no price");
    assert_eq!(read_live_price(&json(r#"{"price":"2"}"#)).unwrap().0, dec("2"));
}

#[test]
fn prices_of_the_wanted_symbols() {
    let data = json(
        r#"[{"symbol":"BTCUSDT","price":"1"},{"symbol":"ETHUSDT","price":"2"},
            {"symbol":"BTCUSDT","price":"3"},{"symbol":"XRPUSDT","price":4},{"price":"5"}]"#,
    );
    let want = [Symbol::new("btcusdt"), Symbol::new("XRPUSDT")];
    let map = read_prices(&data, &want).unwrap();
    assert_eq!(map.get(&want[0]).unwrap().0, dec("3"));
    assert!(map.get(&want[1]).is_none());
    assert!(map.get(&Symbol::new("ETHUSDT")).is_none());
    assert_eq!(
        complaint(read_prices(&json("{}"), &want)),
        "Response parse error: expected array"
    );
}

#[test]
fn a_later_price_replaces_an_earlier_one() {
    let mut m = PriceMap::new();
    let s = Symbol::new("A");
    assert!(m.get(&s).is_none());
    m.insert(s.clone(), Price::new(dec("1")));
    m.insert(Symbol::new("B"), Price::new(dec("7")));
    m.insert(s.clone(), Price::new(dec("2")));
    assert_eq!(m.get(&s).unwrap().0, dec("2"));
    assert_eq!(m.get(&Symbol::new("b")).unwrap().0, dec("7"));
}

const ROW: &str = r#"[1700000000000,"1.0","4.0","0.5","3.0","10","x","20","30","40"]"#;

#[test]
fn candles_are_read_row_by_row() {
    let s = Symbol::new("BTCUSDT");
    for venue in [Venue::Binance, Venue::Paper] {
        let c = read_candles(&json(&format!("[{ROW},{ROW}]")), &s, venue).unwrap();
        assert_eq!(c.len(), 2);
        assert_eq!(c[0].symbol.as_str(), "BTCUSDT");
        assert_eq!(c[0].open_time, 1700000000000);
        assert_eq!(c[0].open.0, dec("1"));
        assert_eq!(c[0].high.0, dec("4"));
        assert_eq!(c[0].low.0, dec("0.5"));
        assert_eq!(c[0].close.0, dec("3"));
        assert_eq!(c[0].volume.0, dec("10"));
        assert_eq!(c[0].quote_volume, dec("20"));
        assert_eq!(c[0].taker_buy_volume, dec("40"));
        assert!(c[0].is_closed);
    }
}

#[test]
fn bad_candles_are_complained_about() {
    let s = Symbol::new("BTCUSDT");
    let ask = |text: &str, venue| complaint(read_candles(&json(text), &s, venue));
    assert_eq!(ask("{}", Venue::Binance), "Response parse error: expected array");
    assert_eq!(ask("[7]", Venue::Binance), "Response parse error: bad kline");
    assert_eq!(ask("[7]", Venue::Paper), "Response parse error: bad kline row");
    assert_eq!(ask("[[1,2]]", Venue::Binance), "Response parse error: bad kline");
    let row = ROW.replace("\"0.5\"", "0.5");
    assert_eq!(
        ask(&format!("[{row}]"), Venue::Binance),
        "Response parse error: price not a string"
    );
    assert_eq!(ask(&format!("[{row}]"), Venue::Paper), "Response parse error: bad price");
}

#[test]
fn candle_times_stay_within_the_calendar() {
    let s = Symbol::new("BTCUSDT");
    let time = |t: &str| {
        let row = ROW.replace("1700000000000", t);
        read_candles(&json(&format!("[{row}]")), &s, Venue::Binance).unwrap()[0].open_time
    };
    assert_eq!(time("8210266876799999"), 8210266876799999);
    assert_eq!(time("8210266876800000"), 0);
    assert_eq!(time("-8334601228800000"), -8334601228800000);
    assert_eq!(time("-8334601228800001"), 0);
    assert_eq!(time("\"later\""), 0);
}

#[test]
fn tradable_symbols_are_listed() {
    let item = |name: &str, quote: &str, status: &str, spot: &str| {
        format!(
            r#"{{"symbol":{name},"quoteAsset":"{quote}","status":"{status}",
                "isSpotTradingAllowed":{spot}}}"#
        )
    };
    let text = format!(
        r#"{{"symbols":[{},{},{},{},{}]}}"#,
        item("\"btcusdt\"", "USDT", "TRADING", "true"),
        item("\"ETHBTC\"", "BTC", "TRADING", "true"),
        item("\"OLDUSDT\"", "USDT", "BREAK", "true"),
        item("\"OPTUSDT\"", "USDT", "TRADING", "false"),
        item("5", "USDT", "TRADING", "true"),
    );
    for venue in [Venue::Binance, Venue::Paper] {
        let v = read_symbols(&json(&text), venue).unwrap();
        assert_eq!(v.len(), 1);
        assert_eq!(v[0].as_str(), "BTCUSDT");
    }
    assert_eq!(
        complaint(read_symbols(&json("{}"), Venue::Binance)),
        "Response parse error: no symbols"
    );
    assert!(read_symbols(&json("{}"), Venue::Paper).unwrap().is_empty());
}

#[test]
fn tickers_are_read_for_usdt_pairs() {
    let full = r#"{"symbol":"btcusdt","priceChangePercent":"-1.5","lastPrice":"100","volume":"7",
        "quoteVolume":"700","highPrice":"110","lowPrice":"90","count":12}"#;
    let text = format!(
        r#"[{full},{{"symbol":"ETHBTC","lastPrice":"1","highPrice":"1","lowPrice":"1"}},
            {{"symbol":"XUSDT","lastPrice":"1","highPrice":"1"}},
            {{"symbol":"YUSDT","lastPrice":"1","highPrice":"1","lowPrice":"1"}}]"#
    );
    let t = read_tickers(&json(&text), Venue::Binance).unwrap();
    assert_eq!(t.len(), 2);
    assert_eq!(t[0].symbol.as_str(), "BTCUSDT");
    assert_eq!(t[0].price_change_pct, dec("-1.5"));
    assert_eq!(t[0].last_price.0, dec("100"));
    assert_eq!(t[0].volume, dec("7"));
    assert_eq!(t[0].quote_volume, dec("700"));
    assert_eq!(t[0].high.0, dec("110"));
    assert_eq!(t[0].low.0, dec("90"));
    assert_eq!(t[0].count, 12);
    assert_eq!(t[1].symbol.as_str(), "YUSDT");
    assert_eq!(t[1].count, 0);
    assert_eq!(t[1].price_change_pct, Decimal::zero());
    assert_eq!(
        complaint(read_tickers(&json("{}"), Venue::Binance)),
        "Response parse error: expected array"
    );
    assert!(read_tickers(&json("{}"), Venue::Paper).unwrap().is_empty());
}

#[test]
fn balances_are_looked_up() {
    let data = json(
        r#"{"balances":[{"asset":"BTC","free":"1"},{"asset":"USDT","free":"2.5"},
            {"asset":"USDT","free":"9"}]}"#,
    );
    assert_eq!(read_balance(&data, "USDT").unwrap(), dec("2.5"));
    assert_eq!(read_balance(&data, "DOGE").unwrap(), Decimal::zero());
    assert_eq!(complaint(read_balance(&json("{}"), "USDT")), "Response parse error: no balances");
}

#[test]
fn fills_are_averaged() {
    let data = json(
        r#"{"orderId":28457,"executedQty":"4","status":"FILLED",
            "fills":[{"price":"10","qty":"1"},{"price":"12","qty":"3"}]}"#,
    );
    let r = read_order(&data, order(OrderSide::Buy, "46")).unwrap();
    assert_eq!(r.order_id, "28457");
    assert_eq!(r.symbol.as_str(), "BTCUSDT");
    assert_eq!(r.side, OrderSide::Buy);
    assert_eq!(r.qty, dec("4"));
    assert_eq!(r.price.0, dec("11.5"));
    assert_eq!(r.status, "FILLED");
    let r = read_order(&json("{}"), order(OrderSide::Sell, "46")).unwrap();
    assert_eq!(r.order_id, "null");
    assert_eq!(r.price.0, Decimal::zero());
    assert_eq!(r.status, "UNKNOWN");
    let r = read_order(&json(r#"{"fills":[{"price":"10","qty":"0"}]}"#), order(OrderSide::Buy, "1"));
    assert_eq!(r.unwrap().price.0, Decimal::zero());
    let big = "79228162514264337593543950335";
    let text = format!(r#"{{"fills":[{{"price":"{big}","qty":"2"}}]}}"#);
    assert_eq!(
        complaint(read_order(&json(&text), order(OrderSide::Buy, "1"))),
        "Amount out of range"
    );
}

// ── Paper trading ─────────────────────────────────────────────────

#[test]
fn paper_buys_are_paid_from_the_balance() {
    let mut p = PaperExchange::new(dec("100"));
    let r = p.fill(order(OrderSide::Buy, "30"), Price::new(dec("7")), 1700000000000).unwrap();
    assert_eq!(r.order_id, "PAPER-1700000000000");
    assert_eq!(r.qty, dec("4.285714"));
    assert_eq!(r.price.0, dec("7"));
    assert_eq!(r.status, "FILLED");
    assert_eq!(p.balance, dec("70"));
    p.fill(order(OrderSide::Sell, "30"), Price::new(dec("7")), 1).unwrap();
    assert_eq!(p.balance, dec("70"));
    assert_eq!(
        complaint(p.fill(order(OrderSide::Buy, "70.01"), Price::new(dec("7")), 1)),
        "Insufficient balance for order"
    );
    assert_eq!(p.balance, dec("70"));
    assert_eq!(
        complaint(p.fill(order(OrderSide::Sell, "1"), Price::new(Decimal::zero()), 1)),
        "Amount out of range"
    );
    let r = p.place_order(order(OrderSide::Buy, "70"), Price::new(dec("7"))).unwrap();
    assert!(r.order_id.starts_with("PAPER-1"), "{}", r.order_id);
    assert_eq!(p.balance, Decimal::zero());
}

#[test]
fn the_paper_balance_is_in_usdt() {
    let p = PaperExchange::new(dec("100"));
    assert_eq!(p.balance("usdt"), dec("100"));
    assert_eq!(p.balance("USDT"), dec("100"));
    assert_eq!(p.balance("BTC"), Decimal::zero());
}
