use tickerbar_core::alerts::{
    mark_fired_rules, process_alert_round, rule_fingerprint, test_alert_notification,
    AlertMemory,
};
use tickerbar_core::decimal::Decimal;
use tickerbar_core::{
    AlertComparator, AlertMetric, AlertRepeat, AlertRule, AppConfig, ConnectionState,
    ProviderUpdate, QuoteSnapshot,
};

fn rule(id: &str, threshold: &str) -> AlertRule {
    AlertRule {
        id: id.into(),
        symbol: " 01810.HK".into(),
        metric: AlertMetric::Price,
        comparator: AlertComparator::Above,
        threshold: Decimal::parse(threshold).expect("fixture threshold"),
        repeat: AlertRepeat::DailyOnce,
        enabled: true,
        silent: false,
        custom_title: None,
        custom_body: None,
        last_triggered_day: None,
    }
}

fn quotes(last_price: &str, connection: ConnectionState) -> Vec<Option<ProviderUpdate>> {
    vec![Some(ProviderUpdate {
        quote: QuoteSnapshot::try_new(last_price, "28.00", "HKD", 0).expect("fixture quote"),
        connection,
    })]
}

fn config(rules: Vec<AlertRule>) -> AppConfig {
    AppConfig {
        alerts: rules,
        ..AppConfig::default()
    }
}

#[test]
fn a_round_arms_first_and_fires_on_the_next_crossing() {
    let config = config(vec![rule("a", "30")]);
    let mut memory = AlertMemory::new();

    let fired = process_alert_round(&config, &quotes("29.00", ConnectionState::Live), &mut memory, "2026-08-05");
    assert!(fired.is_empty());
    assert_eq!(
        memory.previous_value("a", &rule_fingerprint(&config.alerts[0])).map(|v| v.to_string()),
        Some("29.00".to_owned())
    );

    let fired = process_alert_round(&config, &quotes("30.50", ConnectionState::Live), &mut memory, "2026-08-05");
    assert_eq!(fired.len(), 1);
    assert_eq!(fired[0].rule_id, "a");
    assert_eq!(fired[0].title, "小米 30.50");

    let fired = process_alert_round(&config, &quotes("31.00", ConnectionState::Live), &mut memory, "2026-08-05");
    assert!(fired.is_empty());
}

#[test]
fn an_edited_rule_rearms_instead_of_firing() {
    let mut memory = AlertMemory::new();
    let before = config(vec![rule("a", "30")]);
    process_alert_round(&before, &quotes("29.00", ConnectionState::Live), &mut memory, "2026-08-05");

    let after = config(vec![rule("a", "28.50")]);
    let fired = process_alert_round(&after, &quotes("29.00", ConnectionState::Live), &mut memory, "2026-08-05");
    assert!(fired.is_empty());
    assert!(memory
        .previous_value("a", &rule_fingerprint(&before.alerts[0]))
        .is_none());

    let same_value = config(vec![rule("a", "30.00")]);
    let mut fresh = AlertMemory::new();
    process_alert_round(&before, &quotes("29.00", ConnectionState::Live), &mut fresh, "2026-08-05");
    let fired = process_alert_round(&same_value, &quotes("30.20", ConnectionState::Live), &mut fresh, "2026-08-05");
    assert_eq!(fired.len(), 1);
}

#[test]
fn closed_markets_keep_the_memory_and_removed_rules_are_forgotten() {
    let config_ab = config(vec![rule("a", "30"), rule("b", "40")]);
    let mut memory = AlertMemory::new();
    process_alert_round(&config_ab, &quotes("29.00", ConnectionState::Live), &mut memory, "2026-08-05");

    let fired = process_alert_round(&config_ab, &quotes("35.00", ConnectionState::Closed), &mut memory, "2026-08-05");
    assert!(fired.is_empty());
    let fp_a = rule_fingerprint(&config_ab.alerts[0]);
    assert_eq!(
        memory.previous_value("a", &fp_a).map(|v| v.to_string()),
        Some("29.00".to_owned())
    );

    let only_a = config(vec![rule("a", "30")]);
    process_alert_round(&only_a, &quotes("29.50", ConnectionState::Live), &mut memory, "2026-08-05");
    let fp_b = rule_fingerprint(&config_ab.alerts[1]);
    assert!(memory.previous_value("b", &fp_b).is_none());

    let none = config(vec![]);
    let fired = process_alert_round(&none, &quotes("35.00", ConnectionState::Live), &mut memory, "2026-08-05");
    assert!(fired.is_empty());
    assert_eq!(
        memory.previous_value("a", &fp_a).map(|v| v.to_string()),
        Some("29.50".to_owned())
    );
}

#[test]
fn rules_of_unknown_stocks_or_without_quotes_are_skipped() {
    let mut other = rule("x", "30");
    other.symbol = "600519.SH".into();
    let config = config(vec![other]);
    let mut memory = AlertMemory::new();
    let fired = process_alert_round(&config, &quotes("31.00", ConnectionState::Live), &mut memory, "2026-08-05");
    assert!(fired.is_empty());
    let fired = process_alert_round(&config, &vec![None], &mut memory, "2026-08-05");
    assert!(fired.is_empty());
}

#[test]
fn fired_rules_are_marked_once_per_notification() {
    let mut once = rule("b", "30");
    once.repeat = AlertRepeat::Once;
    let config = config(vec![rule("a", "30"), once, rule("c", "30")]);
    let mut memory = AlertMemory::new();
    process_alert_round(&config, &quotes("29.00", ConnectionState::Live), &mut memory, "2026-08-05");
    let fired = process_alert_round(&config, &quotes("30.50", ConnectionState::Live), &mut memory, "2026-08-05");
    assert_eq!(fired.len(), 3);

    let mut stored = config.alerts.clone();
    mark_fired_rules(&mut stored, &fired[1..].to_vec(), "2026-08-05");
    assert_eq!(stored[0].last_triggered_day, None);
    assert!(stored[0].enabled);
    assert_eq!(stored[1].last_triggered_day.as_deref(), Some("2026-08-05"));
    assert!(!stored[1].enabled);
    assert_eq!(stored[2].last_triggered_day.as_deref(), Some("2026-08-05"));
    assert!(stored[2].enabled);

    let fired_again = process_alert_round(
        &AppConfig { alerts: stored, ..config.clone() },
        &quotes("29.00", ConnectionState::Live),
        &mut memory,
        "2026-08-05",
    );
    assert!(fired_again.is_empty());
}

#[test]
fn a_test_send_uses_the_current_value_or_the_threshold() {
    let config = config(vec![]);
    let rule = rule("a", "30");

    let with_quote = test_alert_notification(&config, &quotes("29.10", ConnectionState::Closed), &rule)
        .expect("the stock is configured");
    assert_eq!(with_quote.title, "小米 29.10");
    assert_eq!(with_quote.body, "股价 当前 29.10，已≥ 30.00");

    let without_quote = test_alert_notification(&config, &vec![None], &rule)
        .expect("the stock is configured");
    assert_eq!(without_quote.title, "小米 30.00");

    let mut unknown = rule.clone();
    unknown.symbol = "600519.SH".into();
    assert_eq!(
        test_alert_notification(&config, &vec![None], &unknown),
        Err("找不到股票 600519.SH，请先保存设置".to_owned())
    );
}

#[test]
fn fingerprints_follow_the_rule_semantics_only() {
    let plain = rule("a", "30");
    let mut spaced = rule("b", "30.000");
    spaced.symbol = "01810.hk ".into();
    spaced.custom_body = Some("x".into());
    spaced.repeat = AlertRepeat::Once;
    assert_eq!(rule_fingerprint(&plain), rule_fingerprint(&spaced));
    assert_eq!(rule_fingerprint(&plain), "01810.HK|Price|Above|30");

    let mut below = rule("a", "30");
    below.comparator = AlertComparator::Below;
    assert_ne!(rule_fingerprint(&plain), rule_fingerprint(&below));
    let mut other_stock = rule("a", "30");
    other_stock.symbol = "600519.SH".into();
    assert_ne!(rule_fingerprint(&plain), rule_fingerprint(&other_stock));
    assert_ne!(rule_fingerprint(&plain), rule_fingerprint(&rule("a", "-30")));
}

#[test]
fn each_rule_fires_against_the_memory_before_the_round_whatever_the_order() {
    let forward = config(vec![rule("a", "30"), rule("b", "40")]);
    let backward = config(vec![rule("b", "40"), rule("a", "30")]);
    let mut m1 = AlertMemory::new();
    let mut m2 = AlertMemory::new();
    process_alert_round(&forward, &quotes("29.00", ConnectionState::Live), &mut m1, "2026-08-05");
    process_alert_round(&backward, &quotes("29.00", ConnectionState::Live), &mut m2, "2026-08-05");

    let f1 = process_alert_round(&forward, &quotes("41.00", ConnectionState::Live), &mut m1, "2026-08-05");
    let f2 = process_alert_round(&backward, &quotes("41.00", ConnectionState::Live), &mut m2, "2026-08-05");
    let ids1: Vec<&str> = f1.iter().map(|n| n.rule_id.as_str()).collect();
    let ids2: Vec<&str> = f2.iter().map(|n| n.rule_id.as_str()).collect();
    assert_eq!(ids1, vec!["a", "b"]);
    assert_eq!(ids2, vec!["b", "a"]);
    for id in ["a", "b"] {
        let r = forward.alerts.iter().find(|r| r.id == id).expect("rule");
        let v1 = m1.previous_value(id, &rule_fingerprint(r)).map(|v| v.to_string());
        let v2 = m2.previous_value(id, &rule_fingerprint(r)).map(|v| v.to_string());
        assert_eq!(v1, Some("41.00".to_owned()));
        assert_eq!(v1, v2);
    }
}
