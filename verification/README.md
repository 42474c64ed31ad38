# TickerBar core

The verified core of TickerBar, a menu-bar stock ticker for the Hong Kong and
mainland China exchanges. Every function in `src/` carries a Verus contract and is
proved against it; the few calls into outside crates go through small trusted
wrappers whose contracts are documented where they stand.

## Layout

- `src/decimal.rs` — fixed-point decimals as plain values (magnitude, scale, sign),
  with arithmetic, rounding, parsing and printing done by `rust_decimal`.
- `src/text.rs` — character-level helpers: trimming, case, splitting, joining.
- `src/clock.rs` — exchange time (UTC+8), computed by the `time` crate.
- `src/domain.rs` — quotes, positions, profit and loss, and the menu-bar title.
- `src/config.rs` — the configuration, its checks and its migration.
- `src/alerts.rs` — alert rules: crossing detection, the crossing memory, daily
  de-duplication, notifications.
- `src/portfolio.rs` — position rows and per-currency totals.
- `src/provider.rs` — symbols, the demo feed, and the reading of the Tencent quote
  and search responses.
- `src/runtime.rs` — the application's decisions: refresh back-off, display state,
  tray texts, preparing a configuration for saving.
- `tests/` — behaviour tests of the library.
- `app/` — the Tauri application around the library: window, tray, plugins, the
  refresh loop, HTTP requests and the configuration file.
