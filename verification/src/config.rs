//! The application configuration: stocks, positions, alert rules and display.

use vstd::prelude::*;

use crate::alerts::{metric_needs_position, AlertMetric, AlertRule};
use crate::decimal::DecimalModel;
use crate::domain::{
    bounded_magnitude, ensure_bounded_magnitude, ensure_supported_magnitude, is_magnitude_error,
    is_too_large_error, supported_magnitude, CompactStyle, DisplayConfig, DisplayMetric,
    DomainError, MetricConfig, Position,
};
use crate::text::{owned, same_chars, symbol_key, symbol_key_of, trim, trimmed_of};

verus! {

broadcast use vstd::string::group_string_axioms;

/// The version of the configuration layout written today.
pub const CONFIG_SCHEMA_VERSION: u32 = 3;

/// The most stocks a configuration may hold.
pub const MAX_STOCKS: usize = 8;

/// The most alert rules a configuration may hold.
pub const MAX_ALERTS: usize = 20;

/// Where quotes come from.
#[derive(Clone, Copy, Debug, PartialEq, Eq, Structural)]
pub enum ProviderKind {
    Mock,
    Tencent,
    Longbridge,
}

/// A ready-made selection of title metrics.
#[derive(Clone, Copy, Debug, PartialEq, Eq, Structural)]
pub enum DisplayPreset {
    Price,
    PriceChange,
    Position,
}

/// One stock: its symbol, name, currency and local position.
#[derive(Clone, Debug)]
pub struct StockConfig {
    pub symbol: String,
    pub short_name: String,
    pub currency: String,
    pub position: Option<Position>,
}

/// The whole configuration.
#[derive(Clone, Debug)]
pub struct AppConfig {
    pub schema_version: u32,
    pub provider: ProviderKind,
    pub stocks: Vec<StockConfig>,
    /// The index of the stock shown in the menu bar.
    pub active_stock: usize,
    pub alerts: Vec<AlertRule>,
    pub display: DisplayConfig,
    pub launch_at_login: bool,
    pub tray_throttle_ms: u64,
}

/// The configuration layout of the first version: one stock, flat fields.
#[derive(Clone, Debug)]
pub struct LegacyAppConfigV1 {
    pub provider: ProviderKind,
    pub symbol: String,
    pub short_name: String,
    pub currency: String,
    pub position: Option<Position>,
    pub display: DisplayConfig,
    pub launch_at_login: bool,
    pub tray_throttle_ms: u64,
}

/// `item` shows `metric` with `precision` decimals and the given sign, arrow and style,
/// with no label.
pub open spec fn is_metric(
    item: MetricConfig,
    metric: DisplayMetric,
    precision: u32,
    sign: bool,
    arrow: bool,
) -> bool {
    &&& item.metric == metric
    &&& item.precision == precision
    &&& item.show_sign == sign
    &&& item.direction_arrow == arrow
    &&& item.compact_style == CompactStyle::Plain
    &&& item.label is None
}

/// The metrics a preset selects.
pub open spec fn preset_items(preset: DisplayPreset, items: Seq<MetricConfig>) -> bool {
    match preset {
        DisplayPreset::Price => items.len() == 1 && is_metric(
            items[0],
            DisplayMetric::LastPrice,
            2,
            false,
            false,
        ),
        DisplayPreset::PriceChange => items.len() == 2 && is_metric(
            items[0],
            DisplayMetric::LastPrice,
            2,
            false,
            false,
        ) && is_metric(items[1], DisplayMetric::DailyChangePercent, 2, false, true),
        DisplayPreset::Position => items.len() == 2 && is_metric(
            items[0],
            DisplayMetric::PositionProfit,
            0,
            true,
            false,
        ) && is_metric(items[1], DisplayMetric::PositionReturnPercent, 2, false, true),
    }
}

/// The metrics a preset selects: the price; the price and the day's change with an
/// arrow; or the position's profit, signed, and its return with an arrow.
pub fn apply_display_preset(preset: DisplayPreset) -> (r: Vec<MetricConfig>)
    ensures
        preset_items(preset, r@),
{
    match preset {
        DisplayPreset::Price => {
            let mut v = Vec::new();
            v.push(MetricConfig::new(DisplayMetric::LastPrice).with_precision(2));
            v
        },
        DisplayPreset::PriceChange => {
            let mut v = Vec::new();
            v.push(MetricConfig::new(DisplayMetric::LastPrice).with_precision(2));
            v.push(
                MetricConfig::new(DisplayMetric::DailyChangePercent).with_precision(
                    2,
                ).with_direction_arrow(),
            );
            v
        },
        DisplayPreset::Position => {
            let mut v = Vec::new();
            v.push(
                MetricConfig::new(DisplayMetric::PositionProfit).with_precision(0).with_sign().with_compact_style(
                    CompactStyle::Plain,
                ),
            );
            v.push(
                MetricConfig::new(DisplayMetric::PositionReturnPercent).with_precision(
                    2,
                ).with_direction_arrow(),
            );
            v
        },
    }
}

/// What the checks of one stock come to.
pub enum StockCheck {
    Pass,
    SymbolRequired,
    DuplicateSymbol,
    QuantityOutOfRange(DecimalModel),
    AverageCostOutOfRange(DecimalModel),
}

/// The checks of stock `i`: its symbol key is not empty and differs from the keys of
/// the stocks before it, and its position, if any, is non-negative and bounded.
pub open spec fn stock_check(stocks: Seq<StockConfig>, i: int) -> StockCheck {
    let key = symbol_key(stocks[i].symbol@);
    if key.len() == 0 {
        StockCheck::SymbolRequired
    } else if exists|j: int| 0 <= j < i && symbol_key(stocks[j].symbol@) == key {
        StockCheck::DuplicateSymbol
    } else {
        match stocks[i].position {
            Some(p) => if !supported_magnitude(p.quantity@) {
                StockCheck::QuantityOutOfRange(p.quantity@)
            } else if !supported_magnitude(p.average_cost@) {
                StockCheck::AverageCostOutOfRange(p.average_cost@)
            } else {
                StockCheck::Pass
            },
            None => StockCheck::Pass,
        }
    }
}

/// `e` is the error reported for stock `stock` under `check`.
pub open spec fn is_stock_error(stock: StockConfig, check: StockCheck, e: DomainError) -> bool {
    match check {
        StockCheck::Pass => false,
        StockCheck::SymbolRequired => e is SymbolRequired,
        StockCheck::DuplicateSymbol => e matches DomainError::DuplicateSymbol(s) && s@
            == stock.symbol@,
        StockCheck::QuantityOutOfRange(d) => is_magnitude_error("quantity"@, d, e),
        StockCheck::AverageCostOutOfRange(d) => is_magnitude_error("average cost"@, d, e),
    }
}

/// Stock `k` is the first whose symbol key is `key`.
pub open spec fn is_first_with_key(stocks: Seq<StockConfig>, key: Seq<char>, k: int) -> bool {
    0 <= k < stocks.len() && symbol_key(stocks[k].symbol@) == key && forall|j: int|
        0 <= j < k ==> symbol_key(stocks[j].symbol@) != key
}

/// The index of the first stock whose symbol key is `key`, if any.
pub open spec fn stock_with_key(stocks: Seq<StockConfig>, key: Seq<char>) -> Option<int> {
    if exists|k: int| is_first_with_key(stocks, key, k) {
        Some(choose|k: int| is_first_with_key(stocks, key, k))
    } else {
        None
    }
}

/// What the checks of one alert rule come to.
pub enum AlertCheck {
    Pass,
    IdRequired,
    DuplicateId,
    SymbolUnknown,
    PositionRequired,
    ThresholdOutOfRange(DecimalModel),
}

/// The checks of alert `i`: its trimmed id is not empty and differs from those before
/// it; its symbol names a configured stock; a position metric needs a position on that
/// stock; its threshold is at most one trillion in absolute value.
pub open spec fn alert_check(stocks: Seq<StockConfig>, alerts: Seq<AlertRule>, i: int) -> AlertCheck {
    let id = trim(alerts[i].id@);
    if id.len() == 0 {
        AlertCheck::IdRequired
    } else if exists|j: int| 0 <= j < i && trim(alerts[j].id@) == id {
        AlertCheck::DuplicateId
    } else {
        match stock_with_key(stocks, symbol_key(alerts[i].symbol@)) {
            None => AlertCheck::SymbolUnknown,
            Some(k) => if metric_needs_position(alerts[i].metric) && stocks[k].position is None {
                AlertCheck::PositionRequired
            } else if !bounded_magnitude(alerts[i].threshold@) {
                AlertCheck::ThresholdOutOfRange(alerts[i].threshold@)
            } else {
                AlertCheck::Pass
            },
        }
    }
}

/// `e` is the error reported for alert `alert` under `check`.
pub open spec fn is_alert_error(alert: AlertRule, check: AlertCheck, e: DomainError) -> bool {
    match check {
        AlertCheck::Pass => false,
        AlertCheck::IdRequired => e is AlertIdRequired,
        AlertCheck::DuplicateId => e matches DomainError::DuplicateAlertId(s) && s@ == alert.id@,
        AlertCheck::SymbolUnknown => e matches DomainError::AlertSymbolUnknown(s) && s@
            == alert.symbol@,
        AlertCheck::PositionRequired => e matches DomainError::AlertPositionRequired(s) && s@
            == alert.symbol@,
        AlertCheck::ThresholdOutOfRange(d) => is_too_large_error("alert threshold"@, d, e),
    }
}

/// Whether all stocks pass their checks.
pub open spec fn stocks_pass(stocks: Seq<StockConfig>) -> bool {
    forall|i: int| 0 <= i < stocks.len() ==> stock_check(stocks, i) is Pass
}

/// Whether all alert rules pass their checks.
pub open spec fn alerts_pass(stocks: Seq<StockConfig>, alerts: Seq<AlertRule>) -> bool {
    forall|i: int| 0 <= i < alerts.len() ==> alert_check(stocks, alerts, i) is Pass
}

/// Whether a configuration is valid.
pub open spec fn config_valid(c: AppConfig) -> bool {
    &&& c.stocks@.len() > 0
    &&& c.stocks@.len() <= MAX_STOCKS
    &&& c.active_stock < c.stocks@.len()
    &&& c.display.items@.len() > 0
    &&& stocks_pass(c.stocks@)
    &&& c.alerts@.len() <= MAX_ALERTS
    &&& alerts_pass(c.stocks@, c.alerts@)
}

/// `e` is the error of the first check that `c` fails, checks being made in this
/// order: stocks present, at most eight, active index in range, metrics present, each
/// stock in turn, at most twenty alerts, each alert in turn.
pub open spec fn is_first_config_error(c: AppConfig, e: DomainError) -> bool {
    let stocks = c.stocks@;
    let alerts = c.alerts@;
    if stocks.len() == 0 {
        e is EmptyStocks
    } else if stocks.len() > MAX_STOCKS {
        e matches DomainError::TooManyStocks(n) && n == stocks.len()
    } else if c.active_stock >= stocks.len() {
        e is ActiveStockOutOfRange
    } else if c.display.items@.len() == 0 {
        e is EmptyDisplayMetrics
    } else if !stocks_pass(stocks) {
        exists|i: int|
            0 <= i < stocks.len() && !(stock_check(stocks, i) is Pass) && (forall|j: int|
                0 <= j < i ==> stock_check(stocks, j) is Pass) && is_stock_error(
                stocks[i],
                stock_check(stocks, i),
                e,
            )
    } else if alerts.len() > MAX_ALERTS {
        e matches DomainError::TooManyAlerts(n) && n == alerts.len()
    } else {
        exists|i: int|
            0 <= i < alerts.len() && !(alert_check(stocks, alerts, i) is Pass) && (forall|j: int|
                0 <= j < i ==> alert_check(stocks, alerts, j) is Pass) && is_alert_error(
                alerts[i],
                alert_check(stocks, alerts, i),
                e,
            )
    }
}

/// Whether `key` occurs among the first `n` keys.
fn key_seen(keys: &Vec<Vec<char>>, key: &Vec<char>) -> (r: bool)
    ensures
        r == exists|j: int| 0 <= j < keys@.len() && keys@[j]@ == key@,
{
    let mut j: usize = 0;
    while j < keys.len()
        invariant
            j <= keys@.len(),
            forall|k: int| 0 <= k < j ==> keys@[k]@ != key@,
        decreases keys.len() - j,
    {
        if same_chars(&keys[j], key) {
            return true;
        }
        j += 1;
    }
    false
}

impl AppConfig {
    /// The stock shown in the menu bar, if the index is in range.
    pub fn active(&self) -> (r: Option<&StockConfig>)
        ensures
            self.active_stock < self.stocks@.len() ==> r == Some(&self.stocks@[self.active_stock as int]),
            self.active_stock >= self.stocks@.len() ==> r is None,
    {
        if self.active_stock < self.stocks.len() {
            Some(&self.stocks[self.active_stock])
        } else {
            None
        }
    }

    /// The first stock whose symbol key is `key`.
    fn find_stock_by_key(&self, key: &Vec<char>) -> (r: Option<usize>)
        ensures
            r matches Some(k) ==> stock_with_key(self.stocks@, key@) == Some(k as int),
            r is None ==> stock_with_key(self.stocks@, key@) is None,
    {
        let mut k: usize = 0;
        while k < self.stocks.len()
            invariant
                k <= self.stocks@.len(),
                forall|j: int| 0 <= j < k ==> symbol_key(self.stocks@[j].symbol@) != key@,
            decreases self.stocks.len() - k,
        {
            let candidate = symbol_key_of(self.stocks[k].symbol.as_str());
            if same_chars(&candidate, key) {
                proof {
                    let stocks = self.stocks@;
                    assert(is_first_with_key(stocks, key@, k as int));
                    let c = choose|m: int| is_first_with_key(stocks, key@, m);
                    if c < k {
                        assert(symbol_key(stocks[c].symbol@) != key@);
                    } else if c > k {
                        assert(symbol_key(stocks[k as int].symbol@) != key@);
                    }
                }
                return Some(k);
            }
            k += 1;
        }
        None
    }

    /// Checks the configuration; on failure reports the first check that fails.
    pub fn validate(&self) -> (r: Result<(), DomainError>)
        ensures
            r is Ok <==> config_valid(*self),
            r matches Err(e) ==> is_first_config_error(*self, e),
    {
        let stocks = &self.stocks;
        if stocks.len() == 0 {
            return Err(DomainError::EmptyStocks);
        }
        if stocks.len() > MAX_STOCKS {
            return Err(DomainError::TooManyStocks(stocks.len()));
        }
        if self.active_stock >= stocks.len() {
            return Err(DomainError::ActiveStockOutOfRange);
        }
        if self.display.items.len() == 0 {
            return Err(DomainError::EmptyDisplayMetrics);
        }
        let mut seen: Vec<Vec<char>> = Vec::new();
        let mut i: usize = 0;
        while i < stocks.len()
            invariant
                i <= stocks@.len(),
                stocks == &self.stocks,
                0 < stocks@.len() <= MAX_STOCKS,
                self.active_stock < stocks@.len(),
                self.display.items@.len() > 0,
                seen@.len() == i,
                forall|j: int| 0 <= j < i ==> seen@[j]@ == symbol_key(stocks@[j].symbol@),
                forall|j: int| 0 <= j < i ==> stock_check(stocks@, j) is Pass,
            decreases stocks.len() - i,
        {
            let ghost all = stocks@;
            let key = symbol_key_of(stocks[i].symbol.as_str());
            if key.len() == 0 {
                proof {
                    assert(!(stock_check(all, i as int) is Pass));
                }
                return Err(DomainError::SymbolRequired);
            }
            if key_seen(&seen, &key) {
                proof {
                    let j = choose|j: int| 0 <= j < seen@.len() && seen@[j]@ == key@;
                    assert(symbol_key(all[j].symbol@) == symbol_key(all[i as int].symbol@));
                    assert(stock_check(all, i as int) is DuplicateSymbol);
                }
                return Err(DomainError::DuplicateSymbol(owned(stocks[i].symbol.as_str())));
            }
            proof {
                assert(!exists|j: int|
                    0 <= j < i && symbol_key(all[j].symbol@) == symbol_key(
                        all[i as int].symbol@,
                    )) by {
                    if exists|j: int|
                        0 <= j < i && symbol_key(all[j].symbol@) == symbol_key(
                            all[i as int].symbol@,
                        ) {
                        let j = choose|j: int|
                            0 <= j < i && symbol_key(all[j].symbol@) == symbol_key(
                                all[i as int].symbol@,
                            );
                        assert(seen@[j]@ == key@);
                    }
                }
            }
            match &stocks[i].position {
                Some(p) => {
                    match ensure_supported_magnitude("quantity", p.quantity) {
                        Ok(()) => {},
                        Err(e) => {
                            proof {
                                assert(stock_check(all, i as int) is QuantityOutOfRange);
                            }
                            return Err(e);
                        },
                    }
                    match ensure_supported_magnitude("average cost", p.average_cost) {
                        Ok(()) => {},
                        Err(e) => {
                            proof {
                                assert(stock_check(all, i as int) is AverageCostOutOfRange);
                            }
                            return Err(e);
                        },
                    }
                },
                None => {},
            }
            assert(stock_check(all, i as int) is Pass);
            seen.push(key);
            i += 1;
        }
        if self.alerts.len() > MAX_ALERTS {
            return Err(DomainError::TooManyAlerts(self.alerts.len()));
        }
        let alerts = &self.alerts;
        let mut ids: Vec<Vec<char>> = Vec::new();
        let mut a: usize = 0;
        while a < alerts.len()
            invariant
                a <= alerts@.len(),
                alerts == &self.alerts,
                0 < self.stocks@.len() <= MAX_STOCKS,
                self.active_stock < self.stocks@.len(),
                self.display.items@.len() > 0,
                alerts@.len() <= MAX_ALERTS,
                stocks == &self.stocks,
                stocks_pass(stocks@),
                ids@.len() == a,
                forall|j: int| 0 <= j < a ==> ids@[j]@ == trim(alerts@[j].id@),
                forall|j: int| 0 <= j < a ==> alert_check(stocks@, alerts@, j) is Pass,
            decreases alerts.len() - a,
        {
            let ghost all = alerts@;
            let alert = &alerts[a];
            let id = trimmed_of(alert.id.as_str());
            if id.len() == 0 {
                return Err(DomainError::AlertIdRequired);
            }
            if key_seen(&ids, &id) {
                proof {
                    let j = choose|j: int| 0 <= j < ids@.len() && ids@[j]@ == id@;
                    assert(trim(all[j].id@) == trim(all[a as int].id@));
                    assert(alert_check(stocks@, all, a as int) is DuplicateId);
                }
                return Err(DomainError::DuplicateAlertId(owned(alert.id.as_str())));
            }
            proof {
                assert(!exists|j: int| 0 <= j < a && trim(all[j].id@) == trim(all[a as int].id@))
                    by {
                    if exists|j: int| 0 <= j < a && trim(all[j].id@) == trim(all[a as int].id@) {
                        let j = choose|j: int|
                            0 <= j < a && trim(all[j].id@) == trim(all[a as int].id@);
                        assert(ids@[j]@ == id@);
                    }
                }
            }
            let key = symbol_key_of(alert.symbol.as_str());
            let k = match self.find_stock_by_key(&key) {
                Some(k) => k,
                None => {
                    return Err(DomainError::AlertSymbolUnknown(owned(alert.symbol.as_str())));
                },
            };
            if alert.metric.needs_position() && stocks[k].position.is_none() {
                return Err(DomainError::AlertPositionRequired(owned(alert.symbol.as_str())));
            }
            match ensure_bounded_magnitude("alert threshold", alert.threshold) {
                Ok(()) => {},
                Err(e) => {
                    return Err(e);
                },
            }
            assert(alert_check(stocks@, all, a as int) is Pass);
            ids.push(id);
            a += 1;
        }
        Ok(())
    }

    /// Moves a first-version configuration into the stock list: the one stock, shown,
    /// with no alert rules and today's layout version.
    pub fn from_legacy_v1(legacy: LegacyAppConfigV1) -> (r: AppConfig)
        ensures
            r.schema_version == CONFIG_SCHEMA_VERSION,
            r.provider == legacy.provider,
            r.stocks@.len() == 1,
            r.stocks@[0].symbol == legacy.symbol,
            r.stocks@[0].short_name == legacy.short_name,
            r.stocks@[0].currency == legacy.currency,
            r.stocks@[0].position == legacy.position,
            r.active_stock == 0,
            r.alerts@.len() == 0,
            r.display == legacy.display,
            r.launch_at_login == legacy.launch_at_login,
            r.tray_throttle_ms == legacy.tray_throttle_ms,
    {
        let mut stocks = Vec::new();
        stocks.push(
            StockConfig {
                symbol: legacy.symbol,
                short_name: legacy.short_name,
                currency: legacy.currency,
                position: legacy.position,
            },
        );
        AppConfig {
            schema_version: CONFIG_SCHEMA_VERSION,
            provider: legacy.provider,
            stocks,
            active_stock: 0,
            alerts: Vec::new(),
            display: legacy.display,
            launch_at_login: legacy.launch_at_login,
            tray_throttle_ms: legacy.tray_throttle_ms,
        }
    }
}

impl Default for AppConfig {
    /// Real quotes for one sample stock, Xiaomi on the Hong Kong exchange, with no
    /// position; the price and the day's change in the title; a three-second refresh.
    fn default() -> (r: AppConfig)
        ensures
            r.schema_version == CONFIG_SCHEMA_VERSION,
            r.provider == ProviderKind::Tencent,
            r.stocks@.len() == 1,
            r.stocks@[0].symbol@ == "01810.HK"@,
            r.stocks@[0].short_name@ == "小米"@,
            r.stocks@[0].currency@ == "HKD"@,
            r.stocks@[0].position is None,
            r.active_stock == 0,
            r.alerts@.len() == 0,
            preset_items(DisplayPreset::PriceChange, r.display.items@),
            r.display.separator@ == " "@,
            !r.display.append_closed_status,
            !r.display.append_delayed_status,
            !r.launch_at_login,
            r.tray_throttle_ms == 3_000,
    {
        let mut stocks = Vec::new();
        stocks.push(
            StockConfig {
                symbol: String::from_str("01810.HK"),
                short_name: String::from_str("小米"),
                currency: String::from_str("HKD"),
                position: None,
            },
        );
        AppConfig {
            schema_version: CONFIG_SCHEMA_VERSION,
            provider: ProviderKind::Tencent,
            stocks,
            active_stock: 0,
            alerts: Vec::new(),
            display: DisplayConfig {
                items: apply_display_preset(DisplayPreset::PriceChange),
                separator: String::from_str(" "),
                append_closed_status: false,
                append_delayed_status: false,
            },
            launch_at_login: false,
            tray_throttle_ms: 3_000,
        }
    }
}

} // verus!
