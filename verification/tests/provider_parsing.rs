use tickerbar_core::provider::{derive_market_state, TencentMarket};
use tickerbar_core::{
    apply_display_preset, render_tray_title, AppConfig, ConnectionState, DisplayConfig,
    DisplayPreset, Position, ProviderError, ProviderUpdate, StockConfig, StockSearchResult,
    TencentQuoteProvider,
};

const TENCENT_XIAOMI_RESPONSE: &str = r#"v_r_hk01810="100~小米集团-W~01810~27.380~28.780~28.740~102533383.0~0~0~27.380~0~0~0~0~0~0~0~0~0~27.380~0~0~0~0~0~0~0~0~0~102533383.0~2026/08/03 10:00:40~-1.400~-4.86~28.760~27.240~27.380~102533383.0~2836431826.930~0~15.35~~0~0~5.28~5858.9016~7075.5637~XIAOMI-W~0.00~59.900~21.300~3.44~5.35~0~0~0~0~0~17.63~2.40~0.48~200~-30.33~-4.53~GP~13.15~7.03~-1.30~17.61~-11.16~25842088167.00~21398472034.00~33.07~0.000~27.663~-36.80~HKD~1~30";"#;
const TENCENT_SEARCH_RESPONSE: &str = r#"v_hint="sh~600519~\u8d35\u5dde\u8305\u53f0~gzmt~GP-A^hk~01810~\u5c0f\u7c73\u96c6\u56e2w~xmjtw~GP^hk~13011~\u5c0f\u7c73\u4fe1\u8bc1~xmxz~QZ""#;

// 2026-08-03 (Monday) 10:00:40 UTC+8, the time inside the fixture.
const XIAOMI_QUOTE_UNIX: i64 = 1_785_722_440;

#[test]
fn normalizes_supported_stock_symbols_for_tencent() {
    assert_eq!(
        TencentQuoteProvider::normalize_symbol("01810.HK").unwrap(),
        "r_hk01810"
    );
    assert_eq!(
        TencentQuoteProvider::normalize_symbol("1810.HK").unwrap(),
        "r_hk01810"
    );
    assert_eq!(
        TencentQuoteProvider::normalize_symbol("600519.SH").unwrap(),
        "sh600519"
    );
    assert_eq!(
        TencentQuoteProvider::canonical_symbol("600519.SS").unwrap(),
        "600519.SH"
    );
    assert_eq!(
        TencentQuoteProvider::normalize_symbol("000001.SZ").unwrap(),
        "sz000001"
    );
    assert_eq!(
        TencentQuoteProvider::normalize_symbol("sh600519").unwrap(),
        "sh600519"
    );
    assert_eq!(
        TencentQuoteProvider::canonical_symbol("sh600519").unwrap(),
        "600519.SH"
    );
}

fn parse_single(
    stock: &StockConfig,
    timestamp: i64,
    response: &str,
) -> Result<ProviderUpdate, ProviderError> {
    let provider_symbols = vec![TencentQuoteProvider::normalize_symbol(&stock.symbol).unwrap()];
    TencentQuoteProvider::parse_batch_response(
        &vec![stock.clone()],
        &provider_symbols,
        timestamp,
        response,
    )
    .remove(0)
}

#[test]
fn parses_a_real_tencent_quote_response() {
    let config = AppConfig::default();
    let mut stock = config.stocks[0].clone();
    stock.position = Some(Position::try_new("250", "39.46").expect("fixture position"));

    let update = parse_single(&stock, XIAOMI_QUOTE_UNIX, TENCENT_XIAOMI_RESPONSE).unwrap();

    assert_eq!(update.quote.last_price.to_string(), "27.380");
    assert_eq!(update.quote.previous_close.to_string(), "28.780");
    assert_eq!(update.quote.day_high.unwrap().to_string(), "28.760");
    assert_eq!(update.quote.day_low.unwrap().to_string(), "27.240");
    assert_eq!(update.quote.currency, "HKD");
    assert_eq!(update.quote.updated_time.as_deref(), Some("10:00"));
    assert_eq!(update.connection, ConnectionState::Live);

    let price_title = render_tray_title(
        &update.quote,
        stock.position.as_ref(),
        &config.display,
        &update.connection,
    )
    .unwrap();
    assert_eq!(price_title, "27.38 ↓4.86%");

    let position_display = DisplayConfig {
        items: apply_display_preset(DisplayPreset::Position),
        ..config.display
    };
    let position_title = render_tray_title(
        &update.quote,
        stock.position.as_ref(),
        &position_display,
        &update.connection,
    )
    .unwrap();
    assert_eq!(position_title, "-3020 ↓30.61%");
}

#[test]
fn rejects_unsupported_symbols_and_malformed_responses() {
    assert!(TencentQuoteProvider::normalize_symbol("../../bad").is_err());
    let stock = AppConfig::default().stocks[0].clone();
    assert!(parse_single(&stock, 0, "broken").is_err());
}

#[test]
fn parses_a_batch_response_and_flags_missing_stocks_individually() {
    let template = AppConfig::default().stocks[0].clone();
    let stocks = vec![
        StockConfig {
            symbol: "01810.HK".into(),
            short_name: "小米".into(),
            currency: "HKD".into(),
            position: None,
        },
        StockConfig {
            symbol: "600519.SH".into(),
            short_name: "贵州茅台".into(),
            currency: "CNY".into(),
            ..template
        },
    ];
    let provider_symbols = vec!["r_hk01810".to_owned(), "sh600519".to_owned()];

    let results = TencentQuoteProvider::parse_batch_response(
        &stocks,
        &provider_symbols,
        XIAOMI_QUOTE_UNIX,
        TENCENT_XIAOMI_RESPONSE,
    );

    assert_eq!(results.len(), 2);
    let xiaomi = results[0].as_ref().expect("xiaomi payload should parse");
    assert_eq!(xiaomi.quote.symbol.as_deref(), Some("01810.HK"));
    assert!(matches!(results[1], Err(ProviderError::InvalidResponse(_))));
}

#[test]
fn derives_market_state_from_sessions_and_quote_freshness() {
    const QUOTE_TIME: &str = "2026/08/03 10:00:40";
    let hk = TencentMarket::HongKong;
    let sh = TencentMarket::Shanghai;

    assert_eq!(
        derive_market_state(hk, XIAOMI_QUOTE_UNIX, QUOTE_TIME),
        ConnectionState::Live
    );
    assert_eq!(
        derive_market_state(hk, XIAOMI_QUOTE_UNIX + 600, QUOTE_TIME),
        ConnectionState::Delayed
    );
    assert_eq!(
        derive_market_state(hk, XIAOMI_QUOTE_UNIX + 10 * 3_600, QUOTE_TIME),
        ConnectionState::Closed
    );
    let half_past_noon = XIAOMI_QUOTE_UNIX + 2 * 3_600 + 30 * 60;
    assert_eq!(
        derive_market_state(hk, half_past_noon, QUOTE_TIME),
        ConnectionState::Closed
    );
    assert_eq!(
        derive_market_state(sh, half_past_noon, QUOTE_TIME),
        ConnectionState::Closed
    );
    let half_past_three = XIAOMI_QUOTE_UNIX + 5 * 3_600 + 30 * 60;
    assert_eq!(
        derive_market_state(sh, half_past_three, QUOTE_TIME),
        ConnectionState::Closed
    );
    assert_eq!(
        derive_market_state(hk, half_past_three, QUOTE_TIME),
        ConnectionState::Delayed
    );
    assert_eq!(
        derive_market_state(hk, XIAOMI_QUOTE_UNIX + 5 * 86_400, QUOTE_TIME),
        ConnectionState::Closed
    );
    assert_eq!(
        derive_market_state(hk, XIAOMI_QUOTE_UNIX + 86_400, QUOTE_TIME),
        ConnectionState::Closed
    );
    assert_eq!(
        derive_market_state(hk, XIAOMI_QUOTE_UNIX, "garbage"),
        ConnectionState::Live
    );
}

#[test]
fn parses_supported_stock_search_results_and_ignores_warrants() {
    let results = TencentQuoteProvider::parse_search_response(TENCENT_SEARCH_RESPONSE).unwrap();

    assert_eq!(
        results,
        vec![
            StockSearchResult {
                symbol: "600519.SH".into(),
                name: "贵州茅台".into(),
                market: "沪市".into(),
                currency: "CNY".into(),
            },
            StockSearchResult {
                symbol: "01810.HK".into(),
                name: "小米集团w".into(),
                market: "港股".into(),
                currency: "HKD".into(),
            },
        ]
    );
}
