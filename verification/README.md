# PulseBook

An order-flow engine for paper trading. It follows order books and the tape of perpetual
contracts, looks for walls that are absorbed by trades, waits for a breakout and a held retest,
and opens paper positions whose stops and targets are multiples of the risk. Live trading is
locked.

The library in `src/` is written in Verus. Every function states what it returns or changes, and
the proofs are checked with the code. The program in `app/` is ordinary Rust around it: the HTTP
and Socket.IO server, the feeds, the clock, the environment and the files.

## Numbers

Prices, sizes and times are `Double`s: the bits of an IEEE 754 double, with arithmetic that is
proved to round to the nearest number. `tests/numbers.rs` holds it against the hardware.

## Layout

| Modules | What they hold |
|---|---|
| `rounding`, `double`, `number_laws`, `bignat`, `decimal`, `parsing`, `reading` | numbers, how they are rounded, read and written |
| `text`, `sorting`, `table`, `json` | texts, orders, tables with text keys, JSON values |
| `setting_names`, `presets`, `config`, `admin`, `saving`, `persistence` | the settings, their rules and the settings file |
| `models`, `brain`, `execution`, `trading`, `notices` | books, tape, walls, fills, entries and exits |
| `mtf_fvg`, `mtf_tracker` | candles, fair value gaps and the setups made of them |
| `journal`, `telegram`, `messages` | the log and the messages to Telegram |
| `state`, `engine`, `stream`, `feeds`, `scanner` | the state of the market and what changes it |
| `figures`, `readiness`, `standings`, `snapshot`, `detail`, `routes`, `coinglass` | what is shown |
| `replay`, `recorder` | replays without look-ahead, records of raw events |

Laws that relate several functions are public proof functions beside the functions they speak of,
such as `trading::no_instant_entry`, `replay::replay_never_goes_back` or
`persistence::saved_settings_are_read_back`.

Two functions of the standard library are believed rather than proved: `str::to_uppercase` and
`str::to_lowercase`, behind `text::to_uppercase` and `text::to_lowercase`.

## Running

| Variable | Meaning |
|---|---|
| `PORT` | the port of the HTTP server |
| `DATA_MODE` | `demo` for synthetic data, `real` for public streams |
| `ACCOUNT_EQUITY` | the virtual capital |
| `RISK_PER_TRADE_PCT` | the share of it that a trade may lose |
| `TEMPLATES_DIR`, `STATIC_DIR` | where the dashboard's files lie |
| `PULSEBOOK_ENV_FILE` | the file that saved settings are kept in |

`TRADING_MODE=live` refuses to start.
