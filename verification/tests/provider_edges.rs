use tickerbar_core::provider::{
    clock_of, parse_i32, parse_quote_datetime, parse_unsigned, NormalizedSymbol, TencentMarket,
};
use tickerbar_core::{
    AppConfig, ConnectionState, DomainError, ProviderError, StockConfig, TencentQuoteProvider,
};

fn chars(text: &str) -> Vec<char> {
    text.chars().collect()
}

#[test]
fn canonical_symbols_read_back_as_themselves() {
    for symbol in ["1810.hk", " 01810.HK ", "r_hk01810", "600519.ss", "sz000001", "BJ430047"] {
        let canonical = TencentQuoteProvider::canonical_symbol(symbol).unwrap();
        assert_eq!(
            TencentQuoteProvider::canonical_symbol(&canonical).unwrap(),
            canonical
        );
        let provider_symbol = TencentQuoteProvider::normalize_symbol(symbol).unwrap();
        assert_eq!(
            TencentQuoteProvider::normalize_symbol(&canonical).unwrap(),
            provider_symbol
        );
        assert_eq!(
            TencentQuoteProvider::canonical_symbol(&provider_symbol).unwrap(),
            canonical
        );
    }
}

#[test]
fn symbol_codes_are_checked_per_market() {
    assert_eq!(TencentQuoteProvider::canonical_symbol("1.HK").unwrap(), "00001.HK");
    assert_eq!(
        TencentQuoteProvider::canonical_symbol("430047.bj").unwrap(),
        "430047.BJ"
    );
    for bad in ["018100.HK", "60051.SH", "6005190.SH", "12a45.HK", ".HK", "600519.US", "AAPL", ""] {
        assert_eq!(
            TencentQuoteProvider::canonical_symbol(bad),
            Err(ProviderError::UnsupportedSymbol(bad.into()))
        );
    }
}

#[test]
fn search_fields_read_the_market_case_insensitively() {
    let symbol = NormalizedSymbol::from_search_fields("hk", "1810").unwrap();
    assert_eq!(symbol.market, TencentMarket::HongKong);
    assert_eq!(symbol.canonical_symbol(), "01810.HK");
    assert!(matches!(
        NormalizedSymbol::from_search_fields("us", "AAPL"),
        Err(ProviderError::UnsupportedSymbol(text)) if text == "usAAPL"
    ));
}

#[test]
fn quote_request_lists_every_stock_or_names_the_first_unsupported_one() {
    let mut config = AppConfig::default();
    config.stocks.push(StockConfig {
        symbol: "sh600519".into(),
        ..config.stocks[0].clone()
    });
    let symbols = TencentQuoteProvider::provider_symbols(&config.stocks).unwrap();
    assert_eq!(symbols, vec!["r_hk01810".to_owned(), "sh600519".to_owned()]);
    assert_eq!(
        TencentQuoteProvider::quote_url(&symbols),
        "https://qt.gtimg.cn/q=r_hk01810,sh600519"
    );

    config.stocks.push(StockConfig {
        symbol: "bad".into(),
        ..config.stocks[0].clone()
    });
    assert_eq!(
        TencentQuoteProvider::provider_symbols(&config.stocks),
        Err(ProviderError::UnsupportedSymbol("bad".into()))
    );
}

#[test]
fn search_queries_are_trimmed_and_bounded() {
    assert_eq!(TencentQuoteProvider::search_query("   "), Ok(None));
    assert_eq!(
        TencentQuoteProvider::search_query("  浪潮软件 "),
        Ok(Some("浪潮软件".to_owned()))
    );
    let long = "字".repeat(33);
    assert_eq!(
        TencentQuoteProvider::search_query(&long),
        Err(ProviderError::InvalidSearchQuery)
    );
    assert_eq!(
        TencentQuoteProvider::search_query(&"字".repeat(32)),
        Ok(Some("字".repeat(32)))
    );
}

#[test]
fn oversized_responses_are_refused() {
    assert_eq!(TencentQuoteProvider::check_content_length(None), Ok(()));
    assert_eq!(TencentQuoteProvider::check_content_length(Some(65_536)), Ok(()));
    assert_eq!(
        TencentQuoteProvider::check_content_length(Some(70_000)),
        Err(ProviderError::ResponseTooLarge(70_000))
    );
    assert_eq!(TencentQuoteProvider::accept_chunk(60_000, 5_536), Ok(65_536));
    assert_eq!(
        TencentQuoteProvider::accept_chunk(60_000, 5_537),
        Err(ProviderError::ResponseTooLarge(65_537))
    );
}

#[test]
fn provider_errors_have_readable_messages() {
    assert_eq!(
        ProviderError::NotConfigured.message(),
        "quote provider is not configured"
    );
    assert_eq!(
        ProviderError::UnsupportedSymbol("X".into()).message(),
        "unsupported stock symbol: X"
    );
    assert_eq!(ProviderError::InvalidSearchQuery.message(), "股票搜索内容过长");
    assert_eq!(
        ProviderError::Network("timeout".into()).message(),
        "quote request failed: timeout"
    );
    assert_eq!(
        ProviderError::HttpStatus(503).message(),
        "quote request returned HTTP 503"
    );
    assert_eq!(
        ProviderError::ResponseTooLarge(70_000).message(),
        "quote response exceeds 65536 bytes: 70000"
    );
    assert_eq!(
        ProviderError::InvalidResponse("x".into()).message(),
        "quote response is invalid: x"
    );
    assert_eq!(
        ProviderError::InvalidQuote(DomainError::ZeroCostBasis).message(),
        "provider returned invalid quote: cost basis must be greater than zero"
    );
}

#[test]
fn incomplete_and_invalid_payloads_are_reported_per_stock() {
    let stock = AppConfig::default().stocks[0].clone();
    let short = TencentQuoteProvider::parse_payload(&stock, 0, "1~2~3~4~5");
    assert!(matches!(
        short,
        Err(ProviderError::InvalidResponse(text)) if text == "quote payload is incomplete"
    ));

    let mut fields: Vec<String> = (0..40).map(|i| i.to_string()).collect();
    fields[3] = "abc".into();
    let bad_price = TencentQuoteProvider::parse_payload(&stock, 0, &fields.join("~"));
    assert!(matches!(
        bad_price,
        Err(ProviderError::InvalidQuote(DomainError::InvalidDecimal { .. }))
    ));

    let missing = TencentQuoteProvider::parse_batch_response(
        &vec![stock.clone()],
        &vec!["r_hk01810".to_owned()],
        0,
        "v_sh600519=\"1~2\";",
    );
    assert!(matches!(
        &missing[0],
        Err(ProviderError::InvalidResponse(text)) if text == "no quote payload for 01810.HK"
    ));
}

#[test]
fn a_payload_fills_in_the_name_and_clock_it_lacks() {
    let stock = StockConfig {
        symbol: " 01810.HK ".into(),
        short_name: "  ".into(),
        currency: "HKD".into(),
        position: None,
    };
    let mut fields: Vec<String> = (0..40).map(|_| "1".to_owned()).collect();
    fields[1] = "小米集团".into();
    fields[30] = "20260803100040".into();
    let update = TencentQuoteProvider::parse_payload(&stock, 0, &fields.join("~")).unwrap();
    assert_eq!(update.quote.short_name.as_deref(), Some("小米集团"));
    assert_eq!(update.quote.symbol.as_deref(), Some("01810.HK"));
    assert_eq!(update.quote.updated_time.as_deref(), Some("20260803100040"));
    assert_eq!(update.quote.currency, "HKD");
    // 1970-01-01 08:00 at the exchange: before the morning session.
    assert_eq!(update.connection, ConnectionState::Closed);
}

#[test]
fn quote_clock_is_the_first_five_bytes_of_the_second_token() {
    assert_eq!(clock_of(&chars("2026/08/03 10:00:40")), chars("10:00"));
    assert_eq!(
        clock_of(&chars("  2026/08/03\t 9:05 ")),
        chars("  2026/08/03\t 9:05 ")
    );
    assert_eq!(clock_of(&chars("day 时间:0")), chars("day 时间:0"));
    assert_eq!(clock_of(&chars("day 1时:00")), chars("1时:"));
    assert_eq!(clock_of(&chars("garbage")), chars("garbage"));
}

#[test]
fn integers_are_read_as_the_standard_library_reads_them() {
    assert_eq!(parse_unsigned(&chars("+08"), 255), Some(8));
    assert_eq!(parse_unsigned(&chars("256"), 255), None);
    assert_eq!(parse_unsigned(&chars("-1"), 255), None);
    assert_eq!(parse_unsigned(&chars(""), 255), None);
    assert_eq!(parse_unsigned(&chars("+"), 255), None);
    assert_eq!(parse_unsigned(&chars("0000000000000000000007"), 255), Some(7));
    assert_eq!(parse_i32(&chars("-2147483648")), Some(i32::MIN));
    assert_eq!(parse_i32(&chars("2147483648")), None);
    assert_eq!(parse_i32(&chars("-")), None);
    assert_eq!(parse_i32(&chars("2026")), Some(2026));
}

#[test]
fn quote_times_are_read_at_utc8() {
    assert_eq!(
        parse_quote_datetime("2026/08/03 10:00:40"),
        Some((1_785_722_440, 2_461_256))
    );
    assert_eq!(parse_quote_datetime("2026/02/30 10:00:40"), None);
    assert_eq!(parse_quote_datetime("2026/08/03 24:00:00"), None);
    assert_eq!(parse_quote_datetime("2026/08/03"), None);
    assert_eq!(parse_quote_datetime("2026/08/03 10:00"), None);
    assert_eq!(
        parse_quote_datetime(" 2026/8/3/extra 10:0:40:99 "),
        Some((1_785_722_440, 2_461_256))
    );
}

#[test]
fn market_sessions_follow_each_exchange() {
    assert!(TencentMarket::HongKong.in_session(959));
    assert!(!TencentMarket::Shanghai.in_session(900));
    assert!(TencentMarket::Beijing.in_session(570));
    assert!(!TencentMarket::Shenzhen.in_session(700));
    assert_eq!(TencentMarket::Beijing.label(), "北交所");
    assert_eq!(TencentMarket::Shenzhen.currency(), "CNY");
}

#[test]
fn broken_search_payloads_are_reported() {
    assert_eq!(
        TencentQuoteProvider::parse_search_response("no quotes here"),
        Err(ProviderError::InvalidResponse("missing search payload".into()))
    );
    assert_eq!(
        TencentQuoteProvider::parse_search_response("only \" one"),
        Err(ProviderError::InvalidResponse("missing search payload".into()))
    );
    assert!(matches!(
        TencentQuoteProvider::parse_search_response("v_hint=\"bad \\x escape\""),
        Err(ProviderError::InvalidResponse(_))
    ));
    let many: Vec<String> = (0..10).map(|i| format!("sh~6005{i:02}~股{i}~x~GP-A")).collect();
    let results = TencentQuoteProvider::search_results(&many.join("^"));
    assert_eq!(results.len(), 8);
    assert_eq!(results[7].symbol, "600507.SH");
}

#[test]
fn quote_dates_count_julian_days_across_leap_years() {
    assert_eq!(
        parse_quote_datetime("2000/01/01 08:00:00"),
        Some((946_684_800, 2_451_545))
    );
    assert_eq!(
        parse_quote_datetime("2024/02/29 09:30:00"),
        Some((1_709_170_200, 2_460_370))
    );
    assert_eq!(parse_quote_datetime("1970/01/01 08:00:00"), Some((0, 2_440_588)));
    assert_eq!(parse_quote_datetime("2023/02/29 09:30:00"), None);
}
