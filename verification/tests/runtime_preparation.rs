use tickerbar_core::runtime::{
    preview_title, prepare_user_config, quote_identity_changed, refresh_delay_ms,
    select_active_stock, settle_fetch, stock_menu_label, transport_for_error, tray_title,
    RefreshStatus,
};
use tickerbar_core::{
    AppConfig, ConnectionState, MockQuoteProvider, ProviderError, ProviderKind, ProviderUpdate,
    QuoteSnapshot, StockConfig,
};

fn update(last: &str, previous: &str, connection: ConnectionState) -> ProviderUpdate {
    ProviderUpdate {
        quote: QuoteSnapshot::try_new(last, previous, "HKD", 0).expect("fixture quote"),
        connection,
    }
}

#[test]
fn saving_canonicalizes_symbols_and_clamps_the_interval() {
    let mut config = AppConfig::default();
    config.stocks[0].symbol = " 1810.hk ".into();
    config.tray_throttle_ms = 120_000;
    config.schema_version = 1;
    assert_eq!(prepare_user_config(&mut config), Ok(()));
    assert_eq!(config.stocks[0].symbol, "01810.HK");
    assert_eq!(config.tray_throttle_ms, 60_000);
    assert_eq!(config.schema_version, 3);

    let mut unknown = AppConfig::default();
    unknown.stocks.push(StockConfig {
        symbol: "AAPL".into(),
        ..unknown.stocks[0].clone()
    });
    unknown.stocks[0].symbol = "1810.HK".into();
    assert_eq!(
        prepare_user_config(&mut unknown),
        Err("无法识别股票代码 AAPL，请从搜索结果中选择股票".to_owned())
    );
    assert_eq!(unknown.stocks[0].symbol, "1810.HK");

    let mut duplicated = AppConfig::default();
    duplicated.stocks.push(StockConfig {
        symbol: "1810.HK".into(),
        ..duplicated.stocks[0].clone()
    });
    assert_eq!(
        prepare_user_config(&mut duplicated),
        Err("duplicate stock symbol: 01810.HK".to_owned())
    );

    let mut demo = AppConfig {
        provider: ProviderKind::Mock,
        ..AppConfig::default()
    };
    demo.stocks[0].symbol = "DEMO".into();
    assert_eq!(prepare_user_config(&mut demo), Ok(()));
    assert_eq!(demo.stocks[0].symbol, "DEMO");
}

#[test]
fn quote_identity_ignores_order_and_letter_case() {
    let stored = AppConfig::default();
    let mut reordered = AppConfig::default();
    reordered.stocks.insert(
        0,
        StockConfig {
            symbol: "600519.SH".into(),
            ..reordered.stocks[0].clone()
        },
    );
    let mut stored_two = stored.clone();
    stored_two.stocks.push(StockConfig {
        symbol: " 600519.sh".into(),
        ..stored.stocks[0].clone()
    });
    assert!(!quote_identity_changed(&stored_two, &reordered));
    assert!(quote_identity_changed(&stored, &reordered));

    let other_provider = AppConfig {
        provider: ProviderKind::Mock,
        ..AppConfig::default()
    };
    assert!(quote_identity_changed(&stored, &other_provider));

    let mut twice = stored_two.clone();
    twice.stocks[1].symbol = "01810.hk".into();
    assert!(quote_identity_changed(&stored_two, &twice));
}

#[test]
fn the_tray_title_falls_back_while_loading_or_broken() {
    let config = AppConfig::default();
    assert_eq!(
        tray_title(&config, &vec![None], ConnectionState::Connecting),
        Ok("行情加载中…".to_owned())
    );
    assert_eq!(
        tray_title(&config, &vec![None], ConnectionState::Disconnected),
        Ok("行情异常".to_owned())
    );
    let quotes = vec![Some(update("27.380", "28.780", ConnectionState::Closed))];
    assert_eq!(
        tray_title(&config, &quotes, ConnectionState::Live),
        Ok("27.38 ↓4.86%".to_owned())
    );
    assert_eq!(
        tray_title(&config, &quotes, ConnectionState::Disconnected),
        Ok("27.38 ↓4.86% !".to_owned())
    );
}

#[test]
fn the_preview_reports_what_it_can_show() {
    let config = AppConfig::default();
    assert_eq!(
        preview_title(&config, &vec![None], false, ConnectionState::Live),
        Ok("行情加载中…".to_owned())
    );
    assert_eq!(
        preview_title(&config, &vec![None], true, ConnectionState::Live),
        Ok("保存后加载行情".to_owned())
    );
    let quotes = vec![Some(update("27.380", "28.780", ConnectionState::Live))];
    assert_eq!(
        preview_title(&config, &quotes, true, ConnectionState::Live),
        Ok("27.38 ↓4.86%".to_owned())
    );
    let invalid = AppConfig {
        stocks: vec![],
        ..AppConfig::default()
    };
    assert_eq!(
        preview_title(&invalid, &vec![], true, ConnectionState::Live),
        Err("at least one stock is required".to_owned())
    );
}

#[test]
fn choosing_a_stock_from_the_menu() {
    let mut config = AppConfig::default();
    assert_eq!(
        select_active_stock(&mut config, 1),
        Err("股票不存在".to_owned())
    );
    assert_eq!(config.active_stock, 0);
    config.stocks.push(StockConfig {
        symbol: "600519.SH".into(),
        ..config.stocks[0].clone()
    });
    assert_eq!(select_active_stock(&mut config, 1), Ok(()));
    assert_eq!(config.active_stock, 1);
}

#[test]
fn refresh_failures_decide_the_link_state() {
    assert_eq!(
        transport_for_error(&ProviderError::NotConfigured),
        ConnectionState::AuthenticationFailed
    );
    assert_eq!(
        transport_for_error(&ProviderError::HttpStatus(500)),
        ConnectionState::Disconnected
    );

    let summary = settle_fetch(vec![
        ("01810.HK".to_owned(), Ok(update("27.38", "28.78", ConnectionState::Live))),
        ("600519.SH".to_owned(), Err(ProviderError::InvalidResponse("x".into()))),
        ("000001.SZ".to_owned(), Err(ProviderError::HttpStatus(502))),
    ]);
    assert_eq!(summary.updates.len(), 1);
    assert_eq!(summary.updates[0].0, "01810.HK");
    assert_eq!(summary.transport, ConnectionState::Live);
    assert_eq!(
        summary.error_text,
        "600519.SH: quote response is invalid: x；000001.SZ: quote request returned HTTP 502"
    );

    let failed = settle_fetch(vec![(
        "01810.HK".to_owned(),
        Err(ProviderError::Network("timeout".into())),
    )]);
    assert!(failed.updates.is_empty());
    assert_eq!(failed.transport, ConnectionState::Disconnected);
    assert_eq!(failed.error_text, "01810.HK: quote request failed: timeout");
}

#[test]
fn refresh_status_records_the_last_outcome() {
    let mut status = RefreshStatus::default();
    status.record_error("10:05", "boom");
    assert_eq!(status.last_error.as_deref(), Some("10:05 boom"));
    status.record_success("10:06");
    assert_eq!(status.last_success_at.as_deref(), Some("10:06"));
    assert_eq!(status.last_error, None);
}

#[test]
fn backoff_never_shrinks_while_failures_pile_up() {
    for configured in [0_u64, 3_000, 7_000, 60_000, u64::MAX] {
        let mut previous = refresh_delay_ms(configured, 0);
        for failures in 1..40 {
            let next = refresh_delay_ms(configured, failures);
            assert!(next >= previous);
            assert!((3_000..=60_000).contains(&next));
            previous = next;
        }
    }
    assert_eq!(refresh_delay_ms(7_000, 2), 28_000);
    assert_eq!(refresh_delay_ms(7_000, u32::MAX), 60_000);
}

#[test]
fn the_demo_feed_cycles_through_its_prices() {
    let stock = AppConfig::default().stocks[0].clone();
    let mut provider = MockQuoteProvider::default();
    let prices: Vec<String> = (0..17)
        .map(|i| {
            provider
                .next_quote(&stock, i, "09:30")
                .expect("demo quote")
                .quote
                .last_price
                .to_string()
        })
        .collect();
    assert_eq!(prices[0], "42.85");
    assert_eq!(prices[6], "43.10");
    assert_eq!(prices[14], "42.81");
    assert_eq!(prices[16], prices[0]);
}

#[test]
fn a_menu_row_without_a_previous_close_shows_only_the_price() {
    let stock = AppConfig::default().stocks[0].clone();
    let fresh = update("12.5", "0", ConnectionState::Live);
    assert_eq!(
        stock_menu_label(&stock, Some(&fresh)),
        Some("小米  12.50".to_owned())
    );
    let up = update("30", "28.78", ConnectionState::Live);
    assert_eq!(
        stock_menu_label(&stock, Some(&up)),
        Some("小米  30.00 ↑4.24%".to_owned())
    );
}
