# trading_bot

A crypto trading bot whose decisions are verified with Verus.

`src/` is the library: every rule, formula, parser and message of the bot, with
contracts that say exactly what comes out. `app/` is the program around it: the
database, the network, the clock of the main loop. `tests/` runs the library on
concrete values.

| Module | What it decides |
|---|---|
| `decimal` | 96-bit decimals; every operation is the exact result rounded half to even |
| `text`, `json`, `stamps` | texts, JSON documents, ids and times |
| `types` | symbols, prices, candles, signals, trades, metrics |
| `config` | settings read from environment variables, with defaults for what is not set, and limits |
| `indicators` | RSI, EMA, MACD, ATR, VWAP, stochastic RSI, RSI divergence |
| `smc` | order blocks, fair value gaps, breaks of structure, sweeps, the score |
| `signals` | six setups, their levels, confidence and reasons |
| `ranking` | the stable order by which signals, coins and tips are picked |
| `scanner` | which coins are scored, how, and which are watched |
| `ranges` | that ordinary markets stay within the decimal range |
| `risk` | what every trade must pass, the circuit breaker, the position size |
| `store` | the account, the metrics, the stats per setup and per symbol |
| `learning` | when paper trades close, what they bring, when to go live |
| `exchange`, `binance`, `paper` | requests, signatures, retries, replies, paper fills |
| `telegram`, `advisor` | every message the bot sends |
| `orchestrator` | what a round of the main loop does next, when tasks run |

Numbers are decimals throughout. Where a step leaves the decimal range, a
function says so (`None`, or an `OutOfRange` error) and its contract says when.

Each module ends with the laws that hold of it: `pub proof fn` items, stated
over the same spec functions as the contracts.

What the outside crates do is stated in a few wrappers, each with the name of
the function it calls: the arithmetic of `rust_decimal`, the reader and writer
of `serde_json`, HMAC-SHA256 and hexadecimal digits, the clock, random ids, and
the case mapping of `str`. Where `rust_decimal` divides otherwise than half to
even, `decimal` sets the result right and proves it.
