# spread_bot

A Bybit USDT/USDC perpetual spread bot whose logic is a Verus-verified library.

- `src/` — the library: `text` (numerals, search, parsing), `error`, `digest`
  (HMAC-SHA256 signatures, hex), `json` (request bodies), `bybit` (instruments,
  signed requests, replies, pagination, orders), `telegram` (Bot API requests
  and replies), `bot` (settings, pair discovery, entered coins, entry and
  unwind decisions, and the laws that tie them together).
- `app/` — the program: environment, clock, HTTP, logging and the
  floating-point price and quantity arithmetic.
- `tests/` — tests of the library on concrete values.
