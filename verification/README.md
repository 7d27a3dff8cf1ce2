# polydelta

Finder of delta-neutral BTC range trades on Polymarket: a YES position on
"Bitcoin above $X" (the low leg) and a NO position on "Bitcoin above $Y" (the high
leg) win together when BTC ends inside `[X, Y]`.

## Layout

- `src/` — the verified library (Verus). It holds the logic that decides things:
  - `scanner`: event slugs of the daily markets, the threshold stated in a market
    question, market expiry dates, which markets make a candidate leg, and the pairing
    of low and high legs that expire on the same day;
  - `backtesting`: entry candles (daily, weekly on Mondays, monthly on the first candle
    of each month), the holding window of a trade, trade outcomes and their counts;
  - `historical_data`: reading candle rows from CSV text;
  - `db`: pair labels, the settlement schedule of dry-run orders and which leg wins;
  - `polymarket_ws`: the life cycle of the live-feed connection (`ws_step`: when to
    connect, subscribe, resubscribe in place, answer pings, back off and stop),
    subscription batches and event timestamps;
  - `analytics`: the generator that resamples trades for the Monte Carlo analysis;
  - `scan`: the scan loop (`scan_step`: scan once or every `interval` seconds, retry or
    fail, settle, enter orders and snapshot only in dry-run) and the decision recorded for
    each cycle;
  - `ai_advisor`, `text`, `calendar`, `types`: the advisor's fixed instructions, character
    helpers, the clock and the calendar computations taken from `chrono`.
- `tests/` — tests of the library.
- `app/` — the program around it: HTTP and WebSocket clients, the SQLite store, the
  dashboard, the command line, and the floating-point price arithmetic. Its scan loop and
  WebSocket listener perform the work that `scan_step` and `ws_step` ask for.
