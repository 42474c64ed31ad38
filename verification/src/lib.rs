//! Core domain library for a menu-bar stock ticker: quotes, positions,
//! tray-title rendering, alert rules, portfolio totals and quote parsing.

pub mod alerts;
pub mod clock;
pub mod config;
pub mod decimal;
pub mod domain;
pub mod portfolio;
pub mod provider;
pub mod quote_cache;
pub mod runtime;
pub mod text;

pub use alerts::{AlertComparator, AlertMetric, AlertNotification, AlertRepeat, AlertRule};
pub use config::{
    apply_display_preset, AppConfig, DisplayPreset, LegacyAppConfigV1, ProviderKind, StockConfig,
    CONFIG_SCHEMA_VERSION, MAX_ALERTS, MAX_STOCKS,
};
pub use decimal::Decimal;
pub use domain::{
    calculate_position, render_tray_title, CompactStyle, ConnectionState, DisplayConfig,
    DisplayMetric, DomainError, MetricConfig, Position, PositionPnl, QuoteSnapshot,
};
pub use portfolio::{summarize_portfolio, PortfolioSummary, PortfolioTotal, PositionRow};
pub use quote_cache::QuoteCache;
pub use provider::{
    LongbridgeQuoteProvider, MockQuoteProvider, ProviderError, ProviderUpdate, QuoteProvider,
    StockSearchResult, TencentQuoteProvider,
};
