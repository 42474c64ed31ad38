use tickerbar_core::decimal::Decimal;
use tickerbar_core::{summarize_portfolio, Position, QuoteSnapshot, StockConfig};

fn stock(symbol: &str, currency: &str, position: Option<(&str, &str)>) -> StockConfig {
    StockConfig {
        symbol: symbol.into(),
        short_name: symbol.into(),
        currency: currency.into(),
        position: position
            .map(|(quantity, cost)| Position::try_new(quantity, cost).expect("fixture position")),
    }
}

fn quote(last_price: &str) -> QuoteSnapshot {
    QuoteSnapshot::try_new(last_price, "10", "CNY", 0).expect("fixture quote")
}

/// Whether a decimal has the value written in `expected` (`2000` equals `2000.00`).
fn has_value(actual: Decimal, expected: &str) -> bool {
    let expected = Decimal::parse(expected).expect("fixture decimal");
    actual.at_most(&expected) && expected.at_most(&actual)
}

#[test]
fn sums_positions_of_the_same_currency() {
    let stocks = vec![
        stock("600756.SH", "CNY", Some(("100", "10"))),
        stock("000001.SZ", "CNY", Some(("200", "5"))),
    ];
    let quotes = vec![Some(quote("12")), Some(quote("4"))];

    let summary = summarize_portfolio(&stocks, &quotes);

    assert_eq!(summary.rows.len(), 2);
    assert_eq!(summary.missing_quotes, 0);
    assert_eq!(summary.totals.len(), 1);
    let total = &summary.totals[0];
    assert_eq!(total.currency, "CNY");
    assert!(has_value(total.cost_basis, "2000"));
    assert!(has_value(total.market_value, "2000"));
    assert!(has_value(total.unrealized_profit, "0"));
    assert!(has_value(total.return_percent, "0"));
}

#[test]
fn never_mixes_different_currencies_into_one_total() {
    let stocks = vec![
        stock("01810.HK", "HKD", Some(("100", "20"))),
        stock("600756.SH", "cny", Some(("100", "10"))),
    ];
    let quotes = vec![Some(quote("30")), Some(quote("11"))];

    let summary = summarize_portfolio(&stocks, &quotes);

    assert_eq!(summary.totals.len(), 2);
    assert_eq!(summary.totals[0].currency, "HKD");
    assert!(has_value(summary.totals[0].unrealized_profit, "1000"));
    assert_eq!(summary.totals[1].currency, "CNY");
    assert!(has_value(summary.totals[1].unrealized_profit, "100"));
}

#[test]
fn skips_stocks_without_position_and_counts_missing_quotes() {
    let stocks = vec![
        stock("600756.SH", "CNY", None),
        stock("000001.SZ", "CNY", Some(("100", "10"))),
    ];

    let summary = summarize_portfolio(&stocks, &vec![None, None]);

    assert!(summary.rows.is_empty());
    assert!(summary.totals.is_empty());
    assert_eq!(summary.missing_quotes, 1);
}

#[test]
fn total_return_uses_aggregate_cost_not_the_average_of_rates() {
    let stocks = vec![
        stock("600756.SH", "CNY", Some(("1000", "10"))),
        stock("000001.SZ", "CNY", Some(("10", "10"))),
    ];
    let quotes = vec![Some(quote("11")), Some(quote("20"))];

    let summary = summarize_portfolio(&stocks, &quotes);

    let total = &summary.totals[0];
    assert!(has_value(total.cost_basis, "10100"));
    assert!(has_value(total.unrealized_profit, "1100"));
    assert!(has_value(total.return_percent.round_dp(2), "10.89"));
}

#[test]
fn every_position_is_either_a_row_or_counted_missing() {
    let stocks = vec![
        stock("600756.SH", "CNY", Some(("100", "10"))),
        stock("000001.SZ", "CNY", Some(("100", "10"))),
        stock("01810.HK", "HKD", None),
    ];
    let quotes = vec![Some(quote("11")), None, Some(quote("30"))];

    let summary = summarize_portfolio(&stocks, &quotes);

    assert_eq!(summary.rows.len() + summary.missing_quotes, 2);
    assert_eq!(summary.rows[0].symbol, "600756.SH");
    assert_eq!(summary.rows[0].unrealized_profit.to_string(), "100");
}

#[test]
fn zero_profits_of_different_scales_sum_to_the_later_zero() {
    let stocks = vec![
        stock("600756.SH", "CNY", Some(("1", "10.00"))),
        stock("000001.SZ", "CNY", Some(("1", "10"))),
    ];
    let quotes = vec![Some(quote("10.00")), Some(quote("10"))];

    let summary = summarize_portfolio(&stocks, &quotes);

    assert_eq!(summary.totals.len(), 1);
    assert_eq!(summary.rows[0].unrealized_profit.to_string(), "0.00");
    assert_eq!(summary.rows[1].unrealized_profit.to_string(), "0");
    assert_eq!(summary.totals[0].unrealized_profit.to_string(), "0");
    assert_eq!(summary.totals[0].cost_basis.to_string(), "20.00");
}
