use tickerbar_core::alerts::{evaluate_rule, mark_triggered, rule_fingerprint};
use tickerbar_core::clock::exchange_day;
use tickerbar_core::decimal::Decimal;
use tickerbar_core::{
    AlertComparator, AlertMetric, AlertRepeat, AlertRule, ConnectionState, Position,
    ProviderUpdate, QuoteSnapshot, StockConfig,
};

fn dec(text: &str) -> Decimal {
    Decimal::parse(text).expect("fixture decimal")
}

fn stock() -> StockConfig {
    StockConfig {
        symbol: "01810.HK".into(),
        short_name: "小米".into(),
        currency: "HKD".into(),
        position: Some(Position::try_new("250", "39.46").expect("fixture position")),
    }
}

fn update(last_price: &str, connection: ConnectionState) -> ProviderUpdate {
    ProviderUpdate {
        quote: QuoteSnapshot::try_new(last_price, "28.00", "HKD", 0).expect("fixture quote"),
        connection,
    }
}

fn rule(metric: AlertMetric, comparator: AlertComparator, threshold: &str) -> AlertRule {
    AlertRule {
        id: "rule-1".into(),
        symbol: "01810.HK".into(),
        metric,
        comparator,
        threshold: dec(threshold),
        repeat: AlertRepeat::DailyOnce,
        enabled: true,
        silent: false,
        custom_title: None,
        custom_body: None,
        last_triggered_day: None,
    }
}

const TODAY: &str = "2026-08-05";

#[test]
fn fires_only_when_the_threshold_is_crossed() {
    let rule = rule(AlertMetric::Price, AlertComparator::Above, "30");
    let stock = stock();

    let (value, fired) = evaluate_rule(
        &rule,
        &stock,
        &update("31.00", ConnectionState::Live),
        None,
        TODAY,
    );
    assert_eq!(value.map(|v| v.to_string()), Some("31.00".to_string()));
    assert!(fired.is_none());

    let (_, fired) = evaluate_rule(
        &rule,
        &stock,
        &update("30.10", ConnectionState::Live),
        Some(dec("29.50")),
        TODAY,
    );
    let notification = fired.expect("crossing must fire");
    assert_eq!(notification.title, "小米 30.10");
    assert_eq!(notification.body, "股价 当前 30.10，已≥ 30.00");

    let (_, fired) = evaluate_rule(
        &rule,
        &stock,
        &update("30.20", ConnectionState::Live),
        Some(dec("30.10")),
        TODAY,
    );
    assert!(fired.is_none());
}

#[test]
fn respects_daily_dedup_and_market_state() {
    let mut daily = rule(AlertMetric::Price, AlertComparator::Above, "30");
    daily.last_triggered_day = Some(TODAY.into());
    let stock = stock();

    let (_, fired) = evaluate_rule(
        &daily,
        &stock,
        &update("30.10", ConnectionState::Live),
        Some(dec("29.00")),
        TODAY,
    );
    assert!(fired.is_none());

    let (_, fired) = evaluate_rule(
        &daily,
        &stock,
        &update("30.10", ConnectionState::Live),
        Some(dec("29.00")),
        "2026-08-06",
    );
    assert!(fired.is_some());

    let (value, fired) = evaluate_rule(
        &daily,
        &stock,
        &update("30.10", ConnectionState::Closed),
        Some(dec("29.00")),
        "2026-08-06",
    );
    assert!(value.is_none());
    assert!(fired.is_none());
}

#[test]
fn supports_percent_and_position_metrics_with_signed_thresholds() {
    let stock = stock();
    let drop_rule = rule(AlertMetric::ChangePercent, AlertComparator::Below, "-3");
    let (_, fired) = evaluate_rule(
        &drop_rule,
        &stock,
        &update("27.00", ConnectionState::Live),
        Some(dec("-2.5")),
        TODAY,
    );
    let notification = fired.expect("drop must fire");
    assert_eq!(notification.body, "今日涨跌幅 当前 -3.57%，已≤ -3.00%");

    let loss_rule = rule(AlertMetric::PositionProfit, AlertComparator::Below, "-2000");
    let (value, fired) = evaluate_rule(
        &loss_rule,
        &stock,
        &update("27.00", ConnectionState::Live),
        Some(dec("-1500")),
        TODAY,
    );
    assert_eq!(value.map(|v| v.to_string()), Some("-3115.00".to_string()));
    assert!(fired.is_some());

    let no_position = StockConfig {
        position: None,
        ..stock
    };
    let (value, fired) = evaluate_rule(
        &loss_rule,
        &no_position,
        &update("27.00", ConnectionState::Live),
        Some(dec("-1500")),
        TODAY,
    );
    assert!(value.is_none());
    assert!(fired.is_none());
}

#[test]
fn custom_text_fully_replaces_the_default_notification() {
    let mut disguised = rule(AlertMetric::ChangePercent, AlertComparator::Above, "3");
    disguised.custom_title = Some("今天吃了三斤肉".into());
    disguised.custom_body = Some("记得晚上散步".into());
    disguised.silent = true;

    let (_, fired) = evaluate_rule(
        &disguised,
        &stock(),
        &update("29.00", ConnectionState::Live),
        Some(dec("2")),
        TODAY,
    );
    let notification = fired.expect("crossing must fire");
    assert_eq!(notification.title, "今天吃了三斤肉");
    assert_eq!(notification.body, "记得晚上散步");
    assert!(notification.silent);
    assert!(!notification.title.contains("小米"));
    assert!(!notification.body.contains('%'));
}

#[test]
fn once_rules_disable_themselves_after_firing() {
    let mut one_shot = rule(AlertMetric::Price, AlertComparator::Above, "30");
    one_shot.repeat = AlertRepeat::Once;

    mark_triggered(&mut one_shot, TODAY);
    assert!(!one_shot.enabled);
    assert_eq!(one_shot.last_triggered_day.as_deref(), Some(TODAY));

    let mut daily = rule(AlertMetric::Price, AlertComparator::Above, "30");
    mark_triggered(&mut daily, TODAY);
    assert!(daily.enabled);
    assert_eq!(daily.last_triggered_day.as_deref(), Some(TODAY));
}

#[test]
fn editing_the_rule_semantics_changes_its_crossing_fingerprint() {
    let original = rule(AlertMetric::Price, AlertComparator::Above, "30");
    let same = rule(AlertMetric::Price, AlertComparator::Above, "30.00");
    assert_eq!(rule_fingerprint(&original), rule_fingerprint(&same));

    let edited = rule(AlertMetric::ChangePercent, AlertComparator::Below, "-3");
    assert_ne!(rule_fingerprint(&original), rule_fingerprint(&edited));
    let new_threshold = rule(AlertMetric::Price, AlertComparator::Above, "35");
    assert_ne!(
        rule_fingerprint(&original),
        rule_fingerprint(&new_threshold)
    );

    let mut disguised = rule(AlertMetric::Price, AlertComparator::Above, "30");
    disguised.custom_title = Some("今天吃了三斤肉".into());
    disguised.silent = true;
    assert_eq!(rule_fingerprint(&original), rule_fingerprint(&disguised));
}

#[test]
fn exchange_day_uses_utc8() {
    assert_eq!(exchange_day(1_785_972_600), "2026-08-06");
}
