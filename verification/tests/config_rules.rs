use tickerbar_core::decimal::Decimal;
use tickerbar_core::{
    AlertComparator, AlertMetric, AlertRepeat, AlertRule, AppConfig, DisplayConfig, DisplayMetric,
    DomainError, LegacyAppConfigV1, MetricConfig, Position, ProviderKind, StockConfig,
    CONFIG_SCHEMA_VERSION, MAX_ALERTS, MAX_STOCKS,
};

#[test]
fn defaults_to_a_real_quote_provider_with_one_stock() {
    let config = AppConfig::default();
    assert_eq!(config.provider, ProviderKind::Tencent);
    assert_eq!(config.schema_version, CONFIG_SCHEMA_VERSION);
    assert_eq!(config.stocks.len(), 1);
    assert_eq!(
        config.active().map(|stock| stock.symbol.as_str()),
        Some("01810.HK")
    );
}

#[test]
fn rejects_invalid_stock_lists() {
    let template = AppConfig::default().stocks[0].clone();

    let empty = AppConfig {
        stocks: Vec::new(),
        ..AppConfig::default()
    };
    assert_eq!(empty.validate(), Err(DomainError::EmptyStocks));

    let out_of_range = AppConfig {
        active_stock: 1,
        ..AppConfig::default()
    };
    assert_eq!(
        out_of_range.validate(),
        Err(DomainError::ActiveStockOutOfRange)
    );

    let duplicated = AppConfig {
        stocks: vec![template.clone(), template.clone()],
        ..AppConfig::default()
    };
    assert!(matches!(
        duplicated.validate(),
        Err(DomainError::DuplicateSymbol(_))
    ));

    let too_many = AppConfig {
        stocks: (0..=MAX_STOCKS)
            .map(|index| StockConfig {
                symbol: format!("{index:06}.SH"),
                ..template.clone()
            })
            .collect(),
        ..AppConfig::default()
    };
    assert!(matches!(
        too_many.validate(),
        Err(DomainError::TooManyStocks(_))
    ));
}

fn alert(id: &str, metric: AlertMetric) -> AlertRule {
    AlertRule {
        id: id.into(),
        symbol: "01810.HK".into(),
        metric,
        comparator: AlertComparator::Above,
        threshold: Decimal::from_u64(1),
        repeat: AlertRepeat::DailyOnce,
        enabled: true,
        silent: false,
        custom_title: None,
        custom_body: None,
        last_triggered_day: None,
    }
}

#[test]
fn rejects_invalid_alert_lists() {
    let duplicated = AppConfig {
        alerts: vec![
            alert("a", AlertMetric::Price),
            alert("a", AlertMetric::Price),
        ],
        ..AppConfig::default()
    };
    assert!(matches!(
        duplicated.validate(),
        Err(DomainError::DuplicateAlertId(_))
    ));

    let missing_id = AppConfig {
        alerts: vec![alert("  ", AlertMetric::Price)],
        ..AppConfig::default()
    };
    assert_eq!(missing_id.validate(), Err(DomainError::AlertIdRequired));

    let too_many = AppConfig {
        alerts: (0..=MAX_ALERTS)
            .map(|index| alert(&format!("id-{index}"), AlertMetric::Price))
            .collect(),
        ..AppConfig::default()
    };
    assert!(matches!(
        too_many.validate(),
        Err(DomainError::TooManyAlerts(_))
    ));

    let orphan = AppConfig {
        alerts: vec![alert("p", AlertMetric::PositionProfit)],
        ..AppConfig::default()
    };
    assert!(matches!(
        orphan.validate(),
        Err(DomainError::AlertPositionRequired(_))
    ));

    let mut with_position = AppConfig {
        alerts: vec![alert("p", AlertMetric::PositionProfit)],
        ..AppConfig::default()
    };
    with_position.stocks[0].position =
        Some(Position::try_new("100", "20").expect("fixture position"));
    with_position
        .validate()
        .expect("alert with position should be valid");
}

#[test]
fn legacy_v1_layout_moves_into_the_stock_list() {
    let legacy = LegacyAppConfigV1 {
        provider: ProviderKind::Tencent,
        symbol: "600756.SH".into(),
        short_name: "浪潮".into(),
        currency: "CNY".into(),
        position: Some(Position::try_new("100", "20.5").expect("fixture position")),
        display: DisplayConfig {
            items: vec![MetricConfig::new(DisplayMetric::LastPrice).with_precision(2)],
            separator: " ".into(),
            append_closed_status: true,
            append_delayed_status: true,
        },
        launch_at_login: true,
        tray_throttle_ms: 5_000,
    };

    let config = AppConfig::from_legacy_v1(legacy);

    assert_eq!(config.schema_version, CONFIG_SCHEMA_VERSION);
    assert_eq!(config.stocks.len(), 1);
    assert_eq!(config.stocks[0].symbol, "600756.SH");
    assert_eq!(config.stocks[0].short_name, "浪潮");
    assert!(config.stocks[0].position.is_some());
    assert_eq!(config.active_stock, 0);
    assert!(config.launch_at_login);
    assert_eq!(config.tray_throttle_ms, 5_000);
    assert!(config.alerts.is_empty());
    config.validate().expect("migrated config should be valid");
}

#[test]
fn error_messages_name_the_offending_value() {
    assert_eq!(
        DomainError::TooManyStocks(9).message(),
        "at most 8 stocks are supported, got 9"
    );
    assert_eq!(
        DomainError::DuplicateAlertId("a".into()).message(),
        "duplicate alert id: a"
    );
    assert_eq!(
        DomainError::ArithmeticOverflow.message(),
        "a decimal result is out of range"
    );
}

#[test]
fn alerts_must_name_a_configured_stock_and_a_sane_threshold() {
    let mut unknown = alert("u", AlertMetric::Price);
    unknown.symbol = "600519.SH".into();
    let config = AppConfig {
        alerts: vec![unknown],
        ..AppConfig::default()
    };
    assert_eq!(
        config.validate().map_err(|e| e.message()),
        Err("alert references an unknown stock: 600519.SH".to_owned())
    );

    let mut huge = alert("h", AlertMetric::Price);
    huge.threshold = Decimal::parse("-1000000000001").unwrap();
    let config = AppConfig {
        alerts: vec![huge],
        ..AppConfig::default()
    };
    assert!(matches!(
        config.validate(),
        Err(DomainError::ValueTooLarge { .. })
    ));
}
