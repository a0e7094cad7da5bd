# arb

A trading system for short-dated prediction markets: it follows a crypto perpetual, prices the
markets that hang on it, signals when a market lags behind, and carries the trades out against a
simulated venue or against Kalshi.

`src/` is the library. What to do next is decided there, in code whose contracts Verus
proves: books and their sequence checks, the lifecycle of markets, the windows and features, the
rules, sizing and risk, positions, the trade engine, the exit reconciler and the order state.
Decimals are integers (mostly micro-units), and time is an argument.

`app/` is the program around it: sockets, requests, files, timers, the settings in YAML, and the
models, which compute in floating point. It asks the library what to do next, does it, and hands
the outcome back; the numbers of the models are handed in rounded to billionths.

`tests/` runs the library.

| module | what it holds |
| --- | --- |
| `bus`, `event`, `model`, `module` | topics and their patterns, events and what they carry |
| `collector` | what each feed's frames say, and which markets are followed |
| `processor` | market state, windows, features, bars, and the rules |
| `executor` | plans, risk, positions, the engine, the reconciler, the venues |
| `recorder`, `live`, `replay` | what is kept, sampled, and fed again |
| `auth`, `json`, `datetime`, `clock` | the edges to `rsa`, `base64`, `serde_json`, `chrono` and the clock |
| `text`, `numeral`, `fixed`, `strmap`, `ring`, `ladder` | the tools that the rest is built from |

A law of the library is a public proof function whose name starts with `law_`.
