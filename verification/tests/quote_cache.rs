use tickerbar_core::provider::TencentQuoteProvider;
use tickerbar_core::{ConnectionState, Position, ProviderError, ProviderUpdate, QuoteCache, QuoteSnapshot, StockConfig};

fn stock(symbol: &str) -> StockConfig {
    StockConfig {
        symbol: symbol.into(),
        short_name: "名".into(),
        currency: "HKD".into(),
        position: None,
    }
}

fn update(price: &str) -> ProviderUpdate {
    ProviderUpdate {
        quote: QuoteSnapshot::try_new(price, "28.00", "HKD", 0).expect("fixture quote"),
        connection: ConnectionState::Live,
    }
}

fn price_of(u: &Option<ProviderUpdate>) -> Option<String> {
    u.as_ref().map(|u| u.quote.last_price.to_string())
}

#[test]
fn stocks_find_their_quote_under_the_trimmed_symbol() {
    let mut cache = QuoteCache::new();
    assert!(cache.is_empty());
    cache.insert("01810.HK".into(), update("30.00"));
    assert!(!cache.is_empty());
    let stocks = vec![stock(" 01810.HK "), stock("00700.HK")];
    let aligned = cache.aligned_updates(&stocks);
    assert_eq!(aligned.len(), 2);
    assert_eq!(price_of(&aligned[0]), Some("30.00".to_owned()));
    assert!(aligned[1].is_none());
    let quotes = cache.aligned_quotes(&stocks);
    assert_eq!(quotes[0].as_ref().map(|q| q.last_price.to_string()), Some("30.00".to_owned()));
    assert!(quotes[1].is_none());
}

#[test]
fn a_later_quote_for_a_symbol_replaces_the_earlier_one() {
    let mut cache = QuoteCache::new();
    cache.insert("01810.HK".into(), update("30.00"));
    cache.insert("01810.HK".into(), update("31.00"));
    let aligned = cache.aligned_updates(&vec![stock("01810.HK")]);
    assert_eq!(price_of(&aligned[0]), Some("31.00".to_owned()));
}

#[test]
fn a_refresh_forgets_unconfigured_symbols_and_stores_what_arrived() {
    let mut cache = QuoteCache::new();
    cache.insert("01810.HK".into(), update("30.00"));
    cache.insert("00700.HK".into(), update("400.00"));
    cache.insert("600519.SH".into(), update("1500.00"));
    let stocks = vec![stock("01810.HK"), stock(" 00700.HK")];
    cache.refresh(
        &stocks,
        vec![("00700.HK".into(), update("401.00")), ("09988.HK".into(), update("80.00"))],
    );
    let aligned = cache.aligned_updates(&vec![
        stock("01810.HK"),
        stock("00700.HK"),
        stock("600519.SH"),
        stock("09988.HK"),
    ]);
    assert_eq!(price_of(&aligned[0]), Some("30.00".to_owned()));
    assert_eq!(price_of(&aligned[1]), Some("401.00".to_owned()));
    assert!(aligned[2].is_none());
    assert_eq!(price_of(&aligned[3]), Some("80.00".to_owned()));
}

#[test]
fn the_quote_request_depends_on_the_symbols_alone() {
    let plain = vec![stock("01810.HK"), stock("600519.SS")];
    let mut held = plain.clone();
    held[0].position = Some(Position::try_new("100", "12.34").expect("fixture position"));
    held[1].short_name = "茅台".into();
    held[1].currency = "CNY".into();
    let a = TencentQuoteProvider::quote_request_url(&plain).expect("supported symbols");
    let b = TencentQuoteProvider::quote_request_url(&held).expect("supported symbols");
    assert_eq!(a, "https://qt.gtimg.cn/q=r_hk01810,sh600519");
    assert_eq!(a, b);
    assert!(!b.contains("12.34"));
    assert!(matches!(
        TencentQuoteProvider::quote_request_url(&vec![stock("01810.HK"), stock("AAPL")]),
        Err(ProviderError::UnsupportedSymbol(s)) if s == "AAPL"
    ));
}
