use tickerbar_core::decimal::Decimal;
use tickerbar_core::runtime::{
    display_connection, migrate_legacy_config, portfolio_menu_label, refresh_delay_ms,
    refresh_tooltip, should_prevent_exit, stock_menu_label, RefreshStatus,
    SETTINGS_WINDOW_HEIGHT, SETTINGS_WINDOW_MIN_WIDTH, SETTINGS_WINDOW_WIDTH,
};
use tickerbar_core::{
    AppConfig, ConnectionState, PortfolioTotal, ProviderKind, ProviderUpdate, QuoteSnapshot,
};

fn dec(text: &str) -> Decimal {
    Decimal::parse(text).expect("fixture decimal")
}

#[test]
fn settings_window_is_wide_enough_for_the_editor_workbench() {
    assert_eq!(f64::from(SETTINGS_WINDOW_WIDTH), 1_040.0);
    assert_eq!(f64::from(SETTINGS_WINDOW_HEIGHT), 780.0);
    assert_eq!(f64::from(SETTINGS_WINDOW_MIN_WIDTH), 900.0);
}

#[test]
fn migrates_the_saved_mock_demo_to_the_real_provider() {
    let mut config = AppConfig {
        provider: ProviderKind::Mock,
        ..AppConfig::default()
    };
    config.stocks[0].short_name = "演示".into();

    assert!(migrate_legacy_config(&mut config));
    assert_eq!(config.provider, ProviderKind::Tencent);
    assert_eq!(config.stocks[0].short_name, "小米");
}

#[test]
fn migrates_an_overly_fast_saved_refresh_interval() {
    let mut config = AppConfig {
        provider: ProviderKind::Tencent,
        tray_throttle_ms: 1_000,
        ..AppConfig::default()
    };

    assert!(migrate_legacy_config(&mut config));
    assert_eq!(config.tray_throttle_ms, 3_000);
}

#[test]
fn transport_problems_override_per_stock_market_state() {
    assert_eq!(
        display_connection(ConnectionState::Disconnected, Some(ConnectionState::Live)),
        ConnectionState::Disconnected
    );
    assert_eq!(
        display_connection(ConnectionState::Connecting, Some(ConnectionState::Closed)),
        ConnectionState::Connecting
    );
    assert_eq!(
        display_connection(ConnectionState::Live, Some(ConnectionState::Closed)),
        ConnectionState::Closed
    );
    assert_eq!(
        display_connection(ConnectionState::Live, None),
        ConnectionState::Live
    );
}

#[test]
fn closing_the_last_settings_window_keeps_the_tray_app_running() {
    assert!(should_prevent_exit(None));
}

#[test]
fn choosing_quit_from_the_tray_still_exits_the_app() {
    assert!(!should_prevent_exit(Some(0)));
}

#[test]
fn enforces_a_conservative_minimum_refresh_interval() {
    assert_eq!(refresh_delay_ms(500, 0), 3_000);
    assert_eq!(refresh_delay_ms(1_000, 0), 3_000);
    assert_eq!(refresh_delay_ms(5_000, 0), 5_000);
    assert_eq!(refresh_delay_ms(90_000, 0), 60_000);
}

#[test]
fn backs_off_after_failures_and_recovers_to_the_configured_interval() {
    assert_eq!(refresh_delay_ms(3_000, 1), 6_000);
    assert_eq!(refresh_delay_ms(3_000, 2), 12_000);
    assert_eq!(refresh_delay_ms(3_000, 3), 24_000);
    assert_eq!(refresh_delay_ms(3_000, 4), 48_000);
    assert_eq!(refresh_delay_ms(3_000, 5), 60_000);
    assert_eq!(refresh_delay_ms(3_000, 0), 3_000);
}

#[test]
fn tooltip_reports_last_refresh_time_and_error_reason() {
    assert_eq!(refresh_tooltip(&RefreshStatus::default()), "TickerBar");
    assert_eq!(
        refresh_tooltip(&RefreshStatus {
            last_success_at: Some("10:00".into()),
            last_error: None,
        }),
        "TickerBar\n最后更新 10:00"
    );
    assert_eq!(
        refresh_tooltip(&RefreshStatus {
            last_success_at: Some("10:00".into()),
            last_error: Some("10:05 quote request failed: timeout".into()),
        }),
        "TickerBar\n最后更新 10:00\n上次错误 10:05 quote request failed: timeout"
    );
}

#[test]
fn total_row_lists_each_currency_separately_and_flags_missing_quotes() {
    assert_eq!(portfolio_menu_label(&vec![], 0), None);

    let profit = PortfolioTotal {
        currency: "HKD".into(),
        market_value: Decimal::from_u64(31_000),
        cost_basis: Decimal::from_u64(30_000),
        unrealized_profit: Decimal::from_u64(1_000),
        return_percent: dec("3.3333"),
    };
    assert_eq!(
        portfolio_menu_label(&vec![profit.clone()], 0),
        Some("合计  HKD +1000.00 ↑3.33%".to_owned())
    );

    let loss = PortfolioTotal {
        currency: "CNY".into(),
        market_value: Decimal::from_u64(900),
        cost_basis: Decimal::from_u64(1_000),
        unrealized_profit: Decimal::new(-100, 0),
        return_percent: Decimal::new(-10, 0),
    };
    assert_eq!(
        portfolio_menu_label(&vec![profit, loss], 2),
        Some("合计  HKD +1000.00 ↑3.33%  ·  CNY -100.00 ↓10.00%（2 只待更新）".to_owned())
    );
}

#[test]
fn stock_rows_show_name_price_and_change_direction() {
    let stock = AppConfig::default().stocks[0].clone();
    assert_eq!(stock_menu_label(&stock, None), Some("小米  —".to_owned()));

    let update = ProviderUpdate {
        quote: QuoteSnapshot::try_new("27.380", "28.780", "HKD", 0)
            .expect("fixture quote should be valid"),
        connection: ConnectionState::Live,
    };
    assert_eq!(
        stock_menu_label(&stock, Some(&update)),
        Some("小米  27.38 ↓4.86%".to_owned())
    );

    let flat = ProviderUpdate {
        quote: QuoteSnapshot::try_new("28.78", "28.78", "HKD", 0)
            .expect("fixture quote should be valid"),
        connection: ConnectionState::Live,
    };
    assert_eq!(
        stock_menu_label(&stock, Some(&flat)),
        Some("小米  28.78 0.00%".to_owned())
    );
}
