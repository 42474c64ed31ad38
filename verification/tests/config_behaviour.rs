use tickerbar_core::{apply_display_preset, AppConfig, DisplayMetric, DisplayPreset, ProviderKind};

#[test]
fn default_config_uses_a_real_quote_source() {
    let config = AppConfig::default();

    assert_eq!(config.provider, ProviderKind::Tencent);
    assert_eq!(config.stocks.len(), 1);
    assert_eq!(config.stocks[0].symbol, "01810.HK");
    assert_eq!(config.stocks[0].short_name, "小米");
    assert_eq!(config.active_stock, 0);
    assert_eq!(config.tray_throttle_ms, 3_000);
    assert_eq!(config.display.items.len(), 2);
    assert_eq!(config.display.items[0].metric, DisplayMetric::LastPrice);
    assert_eq!(
        config.display.items[1].metric,
        DisplayMetric::DailyChangePercent
    );
    config.validate().expect("default config must be valid");
}

#[test]
fn presets_create_expected_field_combinations() {
    let price = apply_display_preset(DisplayPreset::Price);
    assert_eq!(
        price.iter().map(|item| item.metric).collect::<Vec<_>>(),
        vec![DisplayMetric::LastPrice]
    );

    let price_change = apply_display_preset(DisplayPreset::PriceChange);
    assert_eq!(
        price_change
            .iter()
            .map(|item| item.metric)
            .collect::<Vec<_>>(),
        vec![DisplayMetric::LastPrice, DisplayMetric::DailyChangePercent]
    );

    let position = apply_display_preset(DisplayPreset::Position);
    assert_eq!(
        position.iter().map(|item| item.metric).collect::<Vec<_>>(),
        vec![
            DisplayMetric::PositionProfit,
            DisplayMetric::PositionReturnPercent
        ]
    );
}

#[test]
fn rejects_empty_symbol_and_empty_display_selection() {
    let mut no_symbol = AppConfig::default();
    no_symbol.stocks[0].symbol = "  ".into();
    assert_eq!(
        no_symbol
            .validate()
            .expect_err("blank symbol must fail")
            .message(),
        "symbol is required"
    );

    let default_config = AppConfig::default();
    let no_metrics = AppConfig {
        display: tickerbar_core::DisplayConfig {
            items: Vec::new(),
            ..default_config.display
        },
        ..default_config
    };
    assert_eq!(
        no_metrics
            .validate()
            .expect_err("empty display selection must fail")
            .message(),
        "at least one display metric is required"
    );
}
