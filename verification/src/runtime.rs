//! The decisions of the menu-bar application: which state to show, how long to wait
//! between refreshes, how to migrate and prepare a configuration, and the texts of
//! the tray menu. The application performs the I/O around them.

use vstd::prelude::*;

use crate::alerts::{
    change_percent_model, display_name, metric_value, stock_display_name, two_decimals,
    two_decimals_text, AlertMetric,
};
use crate::alerts::update_at;
use crate::config::{config_valid, is_first_config_error, AppConfig, ProviderKind, StockConfig, CONFIG_SCHEMA_VERSION};
use crate::decimal::{nat_text, DecimalModel};
use crate::domain::{
    count_text, domain_error_text, lemma_title_outcome, render_tray_title, title_outcome,
    ConnectionState, DomainError,
};
use crate::portfolio::PortfolioTotal;
use crate::provider::{
    canonical_text, parsed_symbol, provider_error_text, ProviderError, ProviderUpdate,
    TencentQuoteProvider,
};
use crate::text::{join, join_strings, joined, owned, symbol_key, symbol_key_of, texts, trim, trimmed_of};

verus! {

broadcast use vstd::string::group_string_axioms;

/// The shortest wait between two refreshes, in milliseconds.
pub const MIN_REFRESH_INTERVAL_MS: u64 = 3_000;

/// The longest wait between two refreshes, in milliseconds.
pub const MAX_REFRESH_INTERVAL_MS: u64 = 60_000;

/// After this many failures in a row the wait stops doubling.
pub const MAX_BACKOFF_EXPONENT: u32 = 5;

/// The settings window's width, in logical pixels.
pub const SETTINGS_WINDOW_WIDTH: u32 = 1_040;

/// The settings window's height, in logical pixels.
pub const SETTINGS_WINDOW_HEIGHT: u32 = 780;

/// The settings window's smallest width, in logical pixels.
pub const SETTINGS_WINDOW_MIN_WIDTH: u32 = 900;

/// The settings window's smallest height, in logical pixels.
pub const SETTINGS_WINDOW_MIN_HEIGHT: u32 = 680;

/// Whether the data link itself is in trouble (or not up yet).
pub open spec fn transport_problem(c: ConnectionState) -> bool {
    c == ConnectionState::Connecting || c == ConnectionState::Reconnecting || c
        == ConnectionState::Disconnected || c == ConnectionState::AuthenticationFailed
}

/// The state shown for a stock: a problem of the data link wins over the stock's
/// own market state; otherwise the market state, or the link's when there is none.
pub fn display_connection(transport: ConnectionState, stock_connection: Option<ConnectionState>) -> (r:
    ConnectionState)
    ensures
        transport_problem(transport) ==> r == transport,
        !transport_problem(transport) ==> r == match stock_connection {
            Some(c) => c,
            None => transport,
        },
{
    match transport {
        ConnectionState::Connecting
        | ConnectionState::Reconnecting
        | ConnectionState::Disconnected
        | ConnectionState::AuthenticationFailed => transport,
        _ => match stock_connection {
            Some(c) => c,
            None => transport,
        },
    }
}

/// Whether an exit request is refused: closing the last window (no exit code) keeps
/// the menu-bar application running; an explicit quit (with a code) exits.
pub fn should_prevent_exit(code: Option<i32>) -> (r: bool)
    ensures
        r == (code is None),
{
    code.is_none()
}

/// `x` clamped into `[lo, hi]`.
pub open spec fn clamp(x: int, lo: int, hi: int) -> int {
    if x < lo {
        lo
    } else if x > hi {
        hi
    } else {
        x
    }
}

/// `2^n`.
pub open spec fn pow2(n: nat) -> nat
    decreases n,
{
    if n == 0 {
        1
    } else {
        2 * pow2((n - 1) as nat)
    }
}

/// The wait before the next refresh: the configured interval clamped to 3–60 s,
/// doubled for each failure in a row (at most five doublings), and never above 60 s.
pub open spec fn refresh_delay(configured: int, failures: int) -> int {
    let base = clamp(configured, MIN_REFRESH_INTERVAL_MS as int, MAX_REFRESH_INTERVAL_MS as int);
    let exponent = if failures < MAX_BACKOFF_EXPONENT {
        failures
    } else {
        MAX_BACKOFF_EXPONENT as int
    };
    let delayed = base * pow2(exponent as nat);
    if delayed > MAX_REFRESH_INTERVAL_MS {
        MAX_REFRESH_INTERVAL_MS as int
    } else {
        delayed
    }
}

/// The wait before the next refresh, in milliseconds.
pub fn refresh_delay_ms(configured_interval: u64, consecutive_failures: u32) -> (r: u64)
    ensures
        r == refresh_delay(configured_interval as int, consecutive_failures as int),
        MIN_REFRESH_INTERVAL_MS <= r <= MAX_REFRESH_INTERVAL_MS,
{
    let base = if configured_interval < MIN_REFRESH_INTERVAL_MS {
        MIN_REFRESH_INTERVAL_MS
    } else if configured_interval > MAX_REFRESH_INTERVAL_MS {
        MAX_REFRESH_INTERVAL_MS
    } else {
        configured_interval
    };
    let exponent = if consecutive_failures < MAX_BACKOFF_EXPONENT {
        consecutive_failures
    } else {
        MAX_BACKOFF_EXPONENT
    };
    let mut multiplier: u64 = 1;
    let mut k: u32 = 0;
    while k < exponent
        invariant
            k <= exponent <= 5,
            multiplier == pow2(k as nat),
            multiplier <= 32,
        decreases exponent - k,
    {
        assert(pow2((k + 1) as nat) == 2 * pow2(k as nat));
        multiplier = multiplier * 2;
        k += 1;
        assert(multiplier <= 32) by {
            assert(pow2(0) == 1);
            assert(pow2(1) == 2);
            assert(pow2(2) == 4);
            assert(pow2(3) == 8);
            assert(pow2(4) == 16);
            assert(pow2(5) == 32);
        }
    }
    assert(base * multiplier <= 60_000 * 32) by (nonlinear_arith)
        requires
            base <= 60_000,
            multiplier <= 32,
    ;
    let delayed = base * multiplier;
    assert(base >= 3_000 && multiplier >= 1 ==> delayed >= 3_000) by (nonlinear_arith)
        requires
            delayed == base * multiplier,
    ;
    assert(multiplier >= 1) by {
        lemma_pow2_positive(k as nat);
    }
    if delayed > MAX_REFRESH_INTERVAL_MS {
        MAX_REFRESH_INTERVAL_MS
    } else {
        delayed
    }
}

/// `2^n` is positive.
proof fn lemma_pow2_positive(n: nat)
    ensures
        pow2(n) >= 1,
    decreases n,
{
    if n > 0 {
        lemma_pow2_positive((n - 1) as nat);
    }
}

/// `2^n` grows with `n`.
proof fn lemma_pow2_monotone(a: nat, b: nat)
    requires
        a <= b,
    ensures
        pow2(a) <= pow2(b),
    decreases b,
{
    if a < b {
        lemma_pow2_monotone(a, (b - 1) as nat);
        lemma_pow2_positive((b - 1) as nat);
    }
}

/// The refresh wait never shrinks as failures pile up, and it returns to the
/// configured interval (clamped) as soon as a refresh succeeds.
pub proof fn lemma_refresh_backoff(configured: u64, failures: u32, more: u32)
    requires
        failures <= more,
    ensures
        refresh_delay(configured as int, failures as int) <= refresh_delay(configured as int, more as int),
        refresh_delay(configured as int, 0) == clamp(configured as int, 3_000, 60_000),
{
    let base = clamp(configured as int, 3_000, 60_000);
    let e1: nat = if failures < 5 {
        failures as nat
    } else {
        5
    };
    let e2: nat = if more < 5 {
        more as nat
    } else {
        5
    };
    lemma_pow2_monotone(e1, e2);
    assert(base * pow2(e1) <= base * pow2(e2)) by (nonlinear_arith)
        requires
            base >= 0,
            pow2(e1) <= pow2(e2),
    ;
    assert(pow2(0) == 1);
    assert(base * pow2(0) == base) by (nonlinear_arith)
        requires
            pow2(0) == 1,
    ;
}

/// Brings an older saved configuration up to date: the retired demo feed becomes the
/// Tencent feed (its demo stock name "演示" becomes "小米"), a refresh interval outside
/// 3–60 s is clamped, and the layout version is set. Says whether anything changed.
pub fn migrate_legacy_config(config: &mut AppConfig) -> (changed: bool)
    ensures
        final(config).provider == if old(config).provider == ProviderKind::Mock {
            ProviderKind::Tencent
        } else {
            old(config).provider
        },
        final(config).tray_throttle_ms == clamp(old(config).tray_throttle_ms as int, 3_000, 60_000),
        final(config).schema_version == CONFIG_SCHEMA_VERSION,
        final(config).stocks@.len() == old(config).stocks@.len(),
        forall|i: int|
            0 <= i < old(config).stocks@.len() ==> {
                let before = old(config).stocks@[i];
                let after = #[trigger] final(config).stocks@[i];
                if i == 0 && old(config).provider == ProviderKind::Mock && trim(before.short_name@)
                    == "演示"@ {
                    &&& after.short_name@ == "小米"@
                    &&& after.symbol == before.symbol
                    &&& after.currency == before.currency
                    &&& after.position == before.position
                } else {
                    after == before
                }
            },
        final(config).active_stock == old(config).active_stock,
        final(config).alerts == old(config).alerts,
        final(config).display == old(config).display,
        final(config).launch_at_login == old(config).launch_at_login,
        changed == (old(config).provider == ProviderKind::Mock || old(config).tray_throttle_ms
            != final(config).tray_throttle_ms || old(config).schema_version
            != CONFIG_SCHEMA_VERSION),
{
    let mut changed = false;
    if config.provider == ProviderKind::Mock {
        config.provider = ProviderKind::Tencent;
        if config.stocks.len() > 0 {
            let demo = crate::text::chars_of("演示");
            if crate::text::same_chars(&trimmed_of(config.stocks[0].short_name.as_str()), &demo) {
                let mut first = config.stocks.remove(0);
                first.short_name = owned("小米");
                config.stocks.insert(0, first);
            }
        }
        changed = true;
    }
    let interval = config.tray_throttle_ms;
    let normalized = if interval < MIN_REFRESH_INTERVAL_MS {
        MIN_REFRESH_INTERVAL_MS
    } else if interval > MAX_REFRESH_INTERVAL_MS {
        MAX_REFRESH_INTERVAL_MS
    } else {
        interval
    };
    if normalized != interval {
        config.tray_throttle_ms = normalized;
        changed = true;
    }
    if config.schema_version != CONFIG_SCHEMA_VERSION {
        config.schema_version = CONFIG_SCHEMA_VERSION;
        changed = true;
    }
    changed
}

/// The last refresh's outcome, for the tooltip and the settings page.
#[derive(Clone, Debug)]
pub struct RefreshStatus {
    /// The clock time of the last successful refresh.
    pub last_success_at: Option<String>,
    /// The clock time and reason of the last error.
    pub last_error: Option<String>,
}

impl Default for RefreshStatus {
    fn default() -> (r: Self)
        ensures
            r.last_success_at is None,
            r.last_error is None,
    {
        RefreshStatus { last_success_at: None, last_error: None }
    }
}

impl RefreshStatus {
    /// Records a successful refresh at `clock`, clearing the last error.
    pub fn record_success(&mut self, clock: &str)
        ensures
            final(self).last_success_at matches Some(t) && t@ == clock@,
            final(self).last_error is None,
    {
        self.last_success_at = Some(owned(clock));
        self.last_error = None;
    }

    /// Records an error at `clock`: "<clock> <error>".
    pub fn record_error(&mut self, clock: &str, error: &str)
        ensures
            final(self).last_error matches Some(t) && t@ == clock@ + " "@ + error@,
            final(self).last_success_at == old(self).last_success_at,
    {
        let mut t = owned(clock);
        t.append(" ");
        t.append(error);
        self.last_error = Some(t);
    }
}

/// The tooltip text of a refresh status.
pub open spec fn tooltip_text(status: RefreshStatus) -> Seq<char> {
    let with_success = match status.last_success_at {
        Some(at) => "TickerBar"@ + "\n最后更新 "@ + at@,
        None => "TickerBar"@,
    };
    match status.last_error {
        Some(e) => with_success + "\n上次错误 "@ + e@,
        None => with_success,
    }
}

/// The tray tooltip: the application's name, the time of the last update and the
/// last error, each on its own line when known.
pub fn refresh_tooltip(status: &RefreshStatus) -> (r: String)
    ensures
        r@ == tooltip_text(*status),
{
    let mut tooltip = String::from_str("TickerBar");
    match &status.last_success_at {
        Some(at) => {
            tooltip.append("\n最后更新 ");
            tooltip.append(at.as_str());
        },
        None => {},
    }
    match &status.last_error {
        Some(e) => {
            tooltip.append("\n上次错误 ");
            tooltip.append(e.as_str());
        },
        None => {},
    }
    tooltip
}


/// The arrow of a change: down for a negative sign (also `-0`), none for zero, up
/// otherwise.
pub open spec fn change_arrow(p: DecimalModel) -> Seq<char> {
    if p.2 {
        "↓"@
    } else if p.0 == 0 {
        ""@
    } else {
        "↑"@
    }
}

/// A stock's row in the tray menu: "<name>  <price> <arrow><change>%", the price and
/// the absolute change in percent with two decimals; "<name>  <price>" for a zero
/// previous close; "<name>  —" without a quote. None where the change does not fit a
/// decimal.
pub open spec fn stock_label_model(stock: StockConfig, update: Option<ProviderUpdate>) -> Option<Seq<char>> {
    let name = stock_display_name(stock);
    match update {
        None => Some(name + "  —"@),
        Some(u) => {
            let price = two_decimals(u.quote.last_price@);
            if u.quote.previous_close@.0 == 0 {
                Some(name + "  "@ + price)
            } else {
                match change_percent_model(u.quote.last_price@, u.quote.previous_close@) {
                    Some(p) => Some(
                        name + "  "@ + price + " "@ + change_arrow(p) + two_decimals(
                            (p.0, p.1, false),
                        ) + "%"@,
                    ),
                    None => None,
                }
            }
        },
    }
}

/// A stock's row in the tray menu.
pub fn stock_menu_label(stock: &StockConfig, update: Option<&ProviderUpdate>) -> (r: Option<String>)
    ensures
        opt_seq(r) == stock_label_model(*stock, opt_update(update)),
{
    let name = display_name(stock);
    let u = match update {
        Some(u) => u,
        None => return Some(joined(name.as_str(), "  —")),
    };
    let price = two_decimals_text(u.quote.last_price);
    let mut label = name;
    label.append("  ");
    label.append(price.as_str());
    if u.quote.previous_close.is_zero() {
        return Some(label);
    }
    let percent = match metric_value(AlertMetric::ChangePercent, stock, u) {
        Some(p) => p,
        None => return None,
    };
    let arrow = if percent.is_sign_negative() {
        "↓"
    } else if percent.is_zero() {
        ""
    } else {
        "↑"
    };
    let shown = two_decimals_text(percent.abs());
    label.append(" ");
    label.append(arrow);
    label.append(shown.as_str());
    label.append("%");
    Some(label)
}

/// The optional text of an optional string.
pub open spec fn opt_seq(r: Option<String>) -> Option<Seq<char>> {
    match r {
        Some(t) => Some(t@),
        None => None,
    }
}

/// The optional value behind an optional reference.
pub open spec fn opt_update(u: Option<&ProviderUpdate>) -> Option<ProviderUpdate> {
    match u {
        Some(x) => Some(*x),
        None => None,
    }
}

/// The arrow of a total's return: down only for a negative non-zero return.
pub open spec fn total_arrow(p: DecimalModel) -> Seq<char> {
    if p.2 && p.0 != 0 {
        "↓"@
    } else if p.0 == 0 {
        ""@
    } else {
        "↑"@
    }
}

/// One currency's segment of the total row: "<currency> <sign><profit> <arrow><return>%",
/// the sign `+` unless the profit is negative.
pub open spec fn total_segment(t: PortfolioTotal) -> Seq<char> {
    let sign = if t.unrealized_profit@.2 {
        ""@
    } else {
        "+"@
    };
    t.currency@ + " "@ + sign + two_decimals(t.unrealized_profit@) + " "@ + total_arrow(
        t.return_percent@,
    ) + two_decimals((t.return_percent@.0, t.return_percent@.1, false)) + "%"@
}

/// The segments of the totals, in order.
pub open spec fn total_segments(totals: Seq<PortfolioTotal>) -> Seq<Seq<char>> {
    totals.map_values(|t: PortfolioTotal| total_segment(t))
}

/// The total row of the tray menu: "合计  " and the segments joined by "  ·  ", with
/// "（n 只待更新）" when n positions lack a quote; none without totals.
pub open spec fn portfolio_label_model(totals: Seq<PortfolioTotal>, missing: nat) -> Option<Seq<char>> {
    if totals.len() == 0 {
        None
    } else {
        let label = "合计  "@ + join(total_segments(totals), "  ·  "@);
        if missing > 0 {
            Some(label + "（"@ + nat_text(missing) + " 只待更新）"@)
        } else {
            Some(label)
        }
    }
}

/// One currency's segment of the total row.
fn total_segment_text(t: &PortfolioTotal) -> (r: String)
    ensures
        r@ == total_segment(*t),
{
    let profit = two_decimals_text(t.unrealized_profit);
    let percent = two_decimals_text(t.return_percent.abs());
    let arrow = if t.return_percent.is_sign_negative() && !t.return_percent.is_zero() {
        "↓"
    } else if t.return_percent.is_zero() {
        ""
    } else {
        "↑"
    };
    let sign = if t.unrealized_profit.is_sign_negative() {
        ""
    } else {
        "+"
    };
    let mut out = owned(t.currency.as_str());
    out.append(" ");
    out.append(sign);
    out.append(profit.as_str());
    out.append(" ");
    out.append(arrow);
    out.append(percent.as_str());
    out.append("%");
    out
}

/// The total row of the tray menu.
pub fn portfolio_menu_label(totals: &Vec<PortfolioTotal>, missing_quotes: usize) -> (r: Option<String>)
    ensures
        opt_seq(r) == portfolio_label_model(totals@, missing_quotes as nat),
{
    if totals.len() == 0 {
        return None;
    }
    let mut segments: Vec<String> = Vec::new();
    let mut i: usize = 0;
    while i < totals.len()
        invariant
            i <= totals@.len(),
            segments@.len() == i,
            texts(segments@) == total_segments(totals@.take(i as int)),
        decreases totals.len() - i,
    {
        let seg = total_segment_text(&totals[i]);
        let ghost before = segments@;
        segments.push(seg);
        assert forall|k: int| 0 <= k < i + 1 implies texts(segments@)[k] == total_segments(
            totals@.take(i + 1),
        )[k] by {
            if k < i {
                assert(texts(before)[k] == total_segments(totals@.take(i as int))[k]);
                assert(segments@[k] == before[k]);
            }
        }
        assert(texts(segments@) =~= total_segments(totals@.take(i + 1)));
        i += 1;
    }
    assert(totals@.take(totals@.len() as int) =~= totals@);
    let joined_segments = join_strings(&segments, "  ·  ");
    let mut label = joined("合计  ", joined_segments.as_str());
    if missing_quotes > 0 {
        label.append("（");
        let n = count_text(missing_quotes);
        label.append(n.as_str());
        label.append(" 只待更新）");
    }
    Some(label)
}


/// How many stocks have the symbol key `key`.
pub open spec fn key_count(stocks: Seq<StockConfig>, key: Seq<char>) -> nat
    decreases stocks.len(),
{
    if stocks.len() == 0 {
        0
    } else {
        key_count(stocks.drop_last(), key) + if symbol_key(stocks.last().symbol@) == key {
            1nat
        } else {
            0nat
        }
    }
}

/// Whether two stock lists hold the same symbols (trimmed, case-insensitive), each as
/// often, in any order.
pub open spec fn same_symbols(a: Seq<StockConfig>, b: Seq<StockConfig>) -> bool {
    forall|key: Seq<char>| key_count(a, key) == key_count(b, key)
}

/// A key that occurs is the key of some stock.
proof fn lemma_counted_key_occurs(stocks: Seq<StockConfig>, key: Seq<char>)
    requires
        key_count(stocks, key) > 0,
    ensures
        exists|i: int| 0 <= i < stocks.len() && symbol_key((#[trigger] stocks[i]).symbol@) == key,
    decreases stocks.len(),
{
    if symbol_key(stocks.last().symbol@) != key {
        lemma_counted_key_occurs(stocks.drop_last(), key);
        let i = choose|i: int|
            0 <= i < stocks.drop_last().len() && symbol_key(
                (#[trigger] stocks.drop_last()[i]).symbol@,
            ) == key;
        assert(stocks[i] == stocks.drop_last()[i]);
    } else {
        assert(stocks[stocks.len() - 1] == stocks.last());
    }
}

/// How many stocks have the symbol key `key`.
fn count_key(stocks: &Vec<StockConfig>, key: &Vec<char>) -> (r: usize)
    ensures
        r == key_count(stocks@, key@),
{
    let mut n: usize = 0;
    let mut i: usize = 0;
    while i < stocks.len()
        invariant
            i <= stocks@.len(),
            n == key_count(stocks@.take(i as int), key@),
            n <= i,
        decreases stocks.len() - i,
    {
        assert(stocks@.take(i + 1).drop_last() =~= stocks@.take(i as int));
        assert(stocks@.take(i + 1).last() == stocks@[i as int]);
        if crate::text::same_chars(&symbol_key_of(stocks[i].symbol.as_str()), key) {
            n += 1;
        }
        i += 1;
    }
    assert(stocks@.take(stocks@.len() as int) =~= stocks@);
    n
}

/// Whether every symbol of `a` occurs as often in `b`.
fn counts_agree(a: &Vec<StockConfig>, b: &Vec<StockConfig>) -> (r: bool)
    ensures
        r == forall|i: int|
            0 <= i < a@.len() ==> key_count(a@, symbol_key((#[trigger] a@[i]).symbol@)) == key_count(
                b@,
                symbol_key(a@[i].symbol@),
            ),
{
    let mut i: usize = 0;
    while i < a.len()
        invariant
            i <= a@.len(),
            forall|j: int|
                0 <= j < i ==> key_count(a@, symbol_key((#[trigger] a@[j]).symbol@)) == key_count(
                    b@,
                    symbol_key(a@[j].symbol@),
                ),
        decreases a.len() - i,
    {
        let key = symbol_key_of(a[i].symbol.as_str());
        if count_key(a, &key) != count_key(b, &key) {
            return false;
        }
        i += 1;
    }
    true
}

/// Whether saving `edited` over `stored` changes which quotes are shown: another
/// provider, or another set of symbols (order and letter case aside).
pub fn quote_identity_changed(stored: &AppConfig, edited: &AppConfig) -> (r: bool)
    ensures
        r == (stored.provider != edited.provider || !same_symbols(stored.stocks@, edited.stocks@)),
{
    if stored.provider != edited.provider {
        return true;
    }
    let forward = counts_agree(&stored.stocks, &edited.stocks);
    let backward = counts_agree(&edited.stocks, &stored.stocks);
    proof {
        let a = stored.stocks@;
        let b = edited.stocks@;
        if forward && backward {
            assert forall|key: Seq<char>| key_count(a, key) == key_count(b, key) by {
                if key_count(a, key) > 0 {
                    lemma_counted_key_occurs(a, key);
                    let i = choose|i: int| 0 <= i < a.len() && symbol_key((#[trigger] a[i]).symbol@) == key;
                    assert(key_count(a, symbol_key(a[i].symbol@)) == key_count(b, symbol_key(a[i].symbol@)));
                } else if key_count(b, key) > 0 {
                    lemma_counted_key_occurs(b, key);
                    let i = choose|i: int| 0 <= i < b.len() && symbol_key((#[trigger] b[i]).symbol@) == key;
                    assert(key_count(b, symbol_key(b[i].symbol@)) == key_count(a, symbol_key(b[i].symbol@)));
                }
            }
        } else if !forward {
            let i = choose|i: int|
                0 <= i < a.len() && !(key_count(a, symbol_key((#[trigger] a[i]).symbol@)) == key_count(
                    b,
                    symbol_key(a[i].symbol@),
                ));
            assert(!same_symbols(a, b)) by {
                let key = symbol_key(a[i].symbol@);
                assert(key_count(a, key) != key_count(b, key));
            }
        } else {
            let i = choose|i: int|
                0 <= i < b.len() && !(key_count(b, symbol_key((#[trigger] b[i]).symbol@)) == key_count(
                    a,
                    symbol_key(b[i].symbol@),
                ));
            assert(!same_symbols(a, b)) by {
                let key = symbol_key(b[i].symbol@);
                assert(key_count(b, key) != key_count(a, key));
            }
        }
    }
    !(forward && backward)
}

/// The canonical symbols of all stocks, or the index of the first unsupported one.
fn canonical_symbols(stocks: &Vec<StockConfig>) -> (r: Result<Vec<String>, usize>)
    ensures
        match r {
            Ok(v) => v@.len() == stocks@.len() && forall|i: int|
                0 <= i < v@.len() ==> canonical_of(stocks@[i].symbol@) == Some((#[trigger] v@[i])@),
            Err(k) => k < stocks@.len() && canonical_of(stocks@[k as int].symbol@) is None && forall|j: int|
                0 <= j < k ==> canonical_of(#[trigger] stocks@[j].symbol@) is Some,
        },
{
    let mut out: Vec<String> = Vec::new();
    let mut i: usize = 0;
    while i < stocks.len()
        invariant
            i <= stocks@.len(),
            out@.len() == i,
            forall|j: int| 0 <= j < i ==> canonical_of(stocks@[j].symbol@) == Some((#[trigger] out@[j])@),
        decreases stocks.len() - i,
    {
        match TencentQuoteProvider::canonical_symbol(stocks[i].symbol.as_str()) {
            Ok(t) => {
                out.push(t);
                assert(canonical_of(stocks@[i as int].symbol@) == Some(out@[i as int]@));
            },
            Err(_) => {
                proof {
                    assert forall|j: int| 0 <= j < i implies canonical_of(#[trigger] stocks@[j].symbol@) is Some by {
                        assert(canonical_of(stocks@[j].symbol@) == Some(out@[j]@));
                    }
                }
                return Err(i);
            },
        }
        i += 1;
    }
    Ok(out)
}

/// The canonical form of a user's symbol, if it is supported.
pub open spec fn canonical_of(s: Seq<char>) -> Option<Seq<char>> {
    match parsed_symbol(s) {
        Some((m, c)) => Some(canonical_text(m, c)),
        None => None,
    }
}

/// Whether `after` is `before` with the symbol `symbol`.
pub open spec fn with_symbol(before: StockConfig, after: StockConfig, symbol: Seq<char>) -> bool {
    &&& after.symbol@ == symbol
    &&& after.short_name == before.short_name
    &&& after.currency == before.currency
    &&& after.position == before.position
}

/// Replaces the symbols of the stocks, in order.
fn replace_symbols(stocks: &mut Vec<StockConfig>, symbols: Vec<String>)
    requires
        symbols@.len() == old(stocks)@.len(),
    ensures
        final(stocks)@.len() == old(stocks)@.len(),
        forall|i: int|
            0 <= i < old(stocks)@.len() ==> with_symbol(
                old(stocks)@[i],
                #[trigger] final(stocks)@[i],
                symbols@[i]@,
            ),
{
    let ghost start = stocks@;
    let ghost wanted = symbols@;
    let mut rest = symbols;
    let mut i: usize = 0;
    let n = stocks.len();
    assert(wanted.subrange(0, n as int) =~= wanted);
    while i < n
        invariant
            i <= n == start.len() == stocks@.len(),
            wanted.len() == n,
            rest@ == wanted.subrange(i as int, n as int),
            forall|j: int| 0 <= j < i ==> with_symbol(start[j], #[trigger] stocks@[j], wanted[j]@),
            forall|j: int| i <= j < n ==> #[trigger] stocks@[j] == start[j],
        decreases n - i,
    {
        let symbol = rest.remove(0);
        assert(symbol == wanted[i as int]);
        assert(rest@ =~= wanted.subrange(i + 1, n as int));
        let mut stock = stocks.remove(i);
        stock.symbol = symbol;
        stocks.insert(i, stock);
        i += 1;
    }
}

/// Prepares an edited configuration for saving: the current layout version, the
/// refresh interval clamped to 3–60 s, with the Tencent feed every symbol in
/// canonical form (the first unsupported one is an error, and then no symbol
/// changes), and then the configuration's checks. Errors are the messages shown.
pub fn prepare_user_config(config: &mut AppConfig) -> (r: Result<(), String>)
    ensures
        final(config).schema_version == CONFIG_SCHEMA_VERSION,
        final(config).tray_throttle_ms == clamp(old(config).tray_throttle_ms as int, 3_000, 60_000),
        final(config).provider == old(config).provider,
        final(config).active_stock == old(config).active_stock,
        final(config).alerts == old(config).alerts,
        final(config).display == old(config).display,
        final(config).launch_at_login == old(config).launch_at_login,
        final(config).stocks@.len() == old(config).stocks@.len(),
        old(config).provider != ProviderKind::Tencent ==> final(config).stocks == old(config).stocks,
        old(config).provider == ProviderKind::Tencent ==> if forall|i: int|
            0 <= i < old(config).stocks@.len() ==> canonical_of(#[trigger] old(config).stocks@[i].symbol@) is Some {
            forall|i: int|
                0 <= i < old(config).stocks@.len() ==> with_symbol(
                    old(config).stocks@[i],
                    #[trigger] final(config).stocks@[i],
                    canonical_of(old(config).stocks@[i].symbol@)->0,
                )
        } else {
            &&& final(config).stocks == old(config).stocks
            &&& exists|k: int|
                0 <= k < old(config).stocks@.len() && canonical_of(#[trigger] old(config).stocks@[k].symbol@) is None
                    && (forall|j: int| 0 <= j < k ==> canonical_of(#[trigger] old(config).stocks@[j].symbol@) is Some)
                    && (r matches Err(m) && m@ == "无法识别股票代码 "@ + old(config).stocks@[k].symbol@
                    + "，请从搜索结果中选择股票"@)
        },
        (old(config).provider != ProviderKind::Tencent || forall|i: int|
            0 <= i < old(config).stocks@.len() ==> canonical_of(#[trigger] old(config).stocks@[i].symbol@) is Some) ==> {
            &&& (r is Ok <==> config_valid(*final(config)))
            &&& (r matches Err(m) ==> exists|e: DomainError| is_first_config_error(*final(config), e) && m@ == domain_error_text(e))
        },
{
    config.schema_version = CONFIG_SCHEMA_VERSION;
    let interval = config.tray_throttle_ms;
    config.tray_throttle_ms = if interval < MIN_REFRESH_INTERVAL_MS {
        MIN_REFRESH_INTERVAL_MS
    } else if interval > MAX_REFRESH_INTERVAL_MS {
        MAX_REFRESH_INTERVAL_MS
    } else {
        interval
    };
    if config.provider == ProviderKind::Tencent {
        match canonical_symbols(&config.stocks) {
            Ok(symbols) => {
                let ghost before = config.stocks@;
                let ghost wanted = symbols@;
                assert(before == old(config).stocks@);
                replace_symbols(&mut config.stocks, symbols);
                proof {
                    assert forall|i: int| 0 <= i < before.len() implies canonical_of(
                        #[trigger] before[i].symbol@,
                    ) is Some by {
                        assert(canonical_of(before[i].symbol@) == Some(wanted[i]@));
                    }
                    assert forall|i: int| 0 <= i < before.len() implies with_symbol(
                        before[i],
                        #[trigger] config.stocks@[i],
                        canonical_of(before[i].symbol@)->0,
                    ) by {
                        assert(canonical_of(before[i].symbol@) == Some(wanted[i]@));
                        assert(with_symbol(before[i], config.stocks@[i], wanted[i]@));
                    }
                }
            },
            Err(k) => {
                let mut m = String::from_str("无法识别股票代码 ");
                m.append(config.stocks[k].symbol.as_str());
                m.append("，请从搜索结果中选择股票");
                return Err(m);
            },
        }
    }
    match config.validate() {
        Ok(()) => Ok(()),
        Err(e) => Err(e.message()),
    }
}

/// The outcome of rendering a title, with an error given as its message.
pub open spec fn title_message(
    quote: crate::domain::QuoteSnapshot,
    pos: Option<crate::domain::Position>,
    display: crate::domain::DisplayConfig,
    connection: ConnectionState,
) -> Result<Seq<char>, Seq<char>> {
    match title_outcome(quote, pos, display, connection) {
        Ok(t) => Ok(t),
        Err(e) => Err(domain_error_text(e)),
    }
}

/// A text result as plain values.
pub open spec fn message_result(r: Result<String, String>) -> Result<Seq<char>, Seq<char>> {
    match r {
        Ok(t) => Ok(t@),
        Err(e) => Err(e@),
    }
}

/// The title of the active stock's quote, shown in its display state.
fn active_title(stock: &StockConfig, update: &ProviderUpdate, config: &AppConfig, transport: ConnectionState) -> (r: Result<String, String>)
    ensures
        message_result(r) == title_message(
            update.quote,
            stock.position,
            config.display,
            display_state(transport, update.connection),
        ),
{
    let connection = display_connection(transport, Some(update.connection));
    let position = match &stock.position {
        Some(p) => Some(p),
        None => None,
    };
    let rendered = render_tray_title(&update.quote, position, &config.display, &connection);
    proof {
        lemma_title_outcome(update.quote, stock.position, config.display, connection, rendered);
    }
    match rendered {
        Ok(t) => Ok(t),
        Err(e) => Err(e.message()),
    }
}

/// The state shown for a stock whose market state is `stock`.
pub open spec fn display_state(transport: ConnectionState, stock: ConnectionState) -> ConnectionState {
    if transport_problem(transport) {
        transport
    } else {
        stock
    }
}

/// The menu-bar title: the active stock's quote rendered in its display state; while
/// connecting "行情加载中…"; otherwise, without an active stock or its quote, "行情异常".
/// `updates` holds the cached quote of each stock, aligned with the stocks.
pub open spec fn tray_title_model(
    config: AppConfig,
    updates: Seq<Option<ProviderUpdate>>,
    transport: ConnectionState,
) -> Result<Seq<char>, Seq<char>> {
    if config.active_stock < config.stocks@.len() && update_at(updates, config.active_stock as int) is Some {
        let stock = config.stocks@[config.active_stock as int];
        let u = update_at(updates, config.active_stock as int)->0;
        title_message(u.quote, stock.position, config.display, display_state(transport, u.connection))
    } else if transport == ConnectionState::Connecting || transport == ConnectionState::Reconnecting {
        Ok("行情加载中…"@)
    } else {
        Ok("行情异常"@)
    }
}

/// The menu-bar title.
pub fn tray_title(config: &AppConfig, updates: &Vec<Option<ProviderUpdate>>, transport: ConnectionState) -> (r: Result<String, String>)
    ensures
        message_result(r) == tray_title_model(*config, updates@, transport),
{
    let k = config.active_stock;
    if k < config.stocks.len() && k < updates.len() {
        match &updates[k] {
            Some(u) => {
                return active_title(&config.stocks[k], u, config, transport);
            },
            None => {},
        }
    }
    match transport {
        ConnectionState::Connecting | ConnectionState::Reconnecting => Ok(String::from_str("行情加载中…")),
        _ => Ok(String::from_str("行情异常")),
    }
}

/// The title previewed for an edited configuration: its check's message when it is
/// invalid; "行情加载中…" without an active stock, or without its quote while no quote
/// is cached at all; "保存后加载行情" when other quotes are cached; else the title.
pub open spec fn preview_title_model(
    config: AppConfig,
    updates: Seq<Option<ProviderUpdate>>,
    have_quotes: bool,
    transport: ConnectionState,
) -> Result<Seq<char>, Seq<char>> {
    if config.active_stock >= config.stocks@.len() {
        Ok("行情加载中…"@)
    } else if update_at(updates, config.active_stock as int) is None {
        if have_quotes {
            Ok("保存后加载行情"@)
        } else {
            Ok("行情加载中…"@)
        }
    } else {
        let stock = config.stocks@[config.active_stock as int];
        let u = update_at(updates, config.active_stock as int)->0;
        title_message(u.quote, stock.position, config.display, display_state(transport, u.connection))
    }
}

/// The title previewed for an edited configuration; `updates` holds the cached quote
/// of each of its stocks (by trimmed symbol), `have_quotes` whether any is cached.
pub fn preview_title(
    config: &AppConfig,
    updates: &Vec<Option<ProviderUpdate>>,
    have_quotes: bool,
    transport: ConnectionState,
) -> (r: Result<String, String>)
    ensures
        !config_valid(*config) ==> (r matches Err(m) && exists|e: DomainError|
            is_first_config_error(*config, e) && m@ == domain_error_text(e)),
        config_valid(*config) ==> message_result(r) == preview_title_model(
            *config,
            updates@,
            have_quotes,
            transport,
        ),
{
    match config.validate() {
        Ok(()) => {},
        Err(e) => return Err(e.message()),
    }
    let k = config.active_stock;
    if k >= config.stocks.len() {
        return Ok(String::from_str("行情加载中…"));
    }
    if k < updates.len() {
        match &updates[k] {
            Some(u) => {
                return active_title(&config.stocks[k], u, config, transport);
            },
            None => {},
        }
    }
    if have_quotes {
        Ok(String::from_str("保存后加载行情"))
    } else {
        Ok(String::from_str("行情加载中…"))
    }
}

/// Makes the stock at `index` the one shown in the menu bar; an error, and no change,
/// when there is no such stock.
pub fn select_active_stock(config: &mut AppConfig, index: usize) -> (r: Result<(), String>)
    ensures
        index >= old(config).stocks@.len() ==> (r matches Err(m) && m@ == "股票不存在"@) && *final(config) == *old(config),
        index < old(config).stocks@.len() ==> r is Ok && *final(config) == (AppConfig { active_stock: index, ..*old(config) }),
{
    if index >= config.stocks.len() {
        return Err(String::from_str("股票不存在"));
    }
    config.active_stock = index;
    Ok(())
}

/// The link state after a failed request: a feed without credentials is an
/// authentication failure, anything else a lost connection.
pub fn transport_for_error(error: &ProviderError) -> (r: ConnectionState)
    ensures
        r == if *error is NotConfigured {
            ConnectionState::AuthenticationFailed
        } else {
            ConnectionState::Disconnected
        },
{
    match error {
        ProviderError::NotConfigured => ConnectionState::AuthenticationFailed,
        _ => ConnectionState::Disconnected,
    }
}


/// The quotes and errors of one refresh, and the link state it leaves.
#[derive(Debug)]
pub struct FetchSummary {
    /// The quotes received, by symbol, in order.
    pub updates: Vec<(String, ProviderUpdate)>,
    /// "<symbol>: <error>" for each stock that failed, in order.
    pub errors: Vec<String>,
    /// The errors joined by "；".
    pub error_text: String,
    /// Live when some quote arrived, disconnected otherwise.
    pub transport: ConnectionState,
}

/// The quotes received in a refresh, in order.
pub open spec fn fetched_updates(results: Seq<(String, Result<ProviderUpdate, ProviderError>)>) -> Seq<(Seq<char>, ProviderUpdate)>
    decreases results.len(),
{
    if results.len() == 0 {
        Seq::empty()
    } else {
        let before = fetched_updates(results.drop_last());
        match results.last().1 {
            Ok(u) => before.push((results.last().0@, u)),
            Err(_) => before,
        }
    }
}

/// The error lines of a refresh, in order.
pub open spec fn fetch_errors(results: Seq<(String, Result<ProviderUpdate, ProviderError>)>) -> Seq<Seq<char>>
    decreases results.len(),
{
    if results.len() == 0 {
        Seq::empty()
    } else {
        let before = fetch_errors(results.drop_last());
        match results.last().1 {
            Ok(_) => before,
            Err(e) => before.push(results.last().0@ + ": "@ + provider_error_text(e)),
        }
    }
}

/// The views of received quotes.
pub open spec fn update_views(v: Seq<(String, ProviderUpdate)>) -> Seq<(Seq<char>, ProviderUpdate)> {
    v.map_values(|e: (String, ProviderUpdate)| (e.0@, e.1))
}

/// Sorts the results of one refresh (each stock's symbol and outcome) into quotes and
/// error lines; the link is live when at least one quote arrived.
pub fn settle_fetch(results: Vec<(String, Result<ProviderUpdate, ProviderError>)>) -> (r: FetchSummary)
    ensures
        update_views(r.updates@) == fetched_updates(results@),
        texts(r.errors@) == fetch_errors(results@),
        r.error_text@ == join(fetch_errors(results@), "；"@),
        r.transport == if fetched_updates(results@).len() > 0 {
            ConnectionState::Live
        } else {
            ConnectionState::Disconnected
        },
{
    let ghost all = results@;
    let n = results.len();
    let mut rest = results;
    let mut updates: Vec<(String, ProviderUpdate)> = Vec::new();
    let mut errors: Vec<String> = Vec::new();
    let mut i: usize = 0;
    assert(all.subrange(0, n as int) =~= all);
    while i < n
        invariant
            i <= n == all.len(),
            rest@ == all.subrange(i as int, n as int),
            update_views(updates@) == fetched_updates(all.take(i as int)),
            texts(errors@) == fetch_errors(all.take(i as int)),
            updates@.len() == fetched_updates(all.take(i as int)).len(),
            errors@.len() == fetch_errors(all.take(i as int)).len(),
        decreases n - i,
    {
        let (symbol, result) = rest.remove(0);
        assert(rest@ =~= all.subrange(i + 1, n as int));
        assert(all.take(i + 1).drop_last() =~= all.take(i as int));
        assert(all.take(i + 1).last() == all[i as int]);
        assert((symbol, result) == all[i as int]);
        match result {
            Ok(u) => {
                let ghost before = updates@;
                updates.push((symbol, u));
                assert(update_views(updates@) =~= update_views(before).push((symbol@, u)));
            },
            Err(e) => {
                let ghost before = errors@;
                let mut line = symbol;
                line.append(": ");
                let m = e.message();
                line.append(m.as_str());
                errors.push(line);
                assert(texts(errors@) =~= texts(before).push(errors@[errors@.len() - 1]@));
            },
        }
        i += 1;
    }
    assert(all.take(n as int) =~= all);
    let error_text = join_strings(&errors, "；");
    let transport = if updates.len() > 0 {
        ConnectionState::Live
    } else {
        ConnectionState::Disconnected
    };
    FetchSummary { updates, errors, error_text, transport }
}

} // verus!
