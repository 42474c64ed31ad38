use tickerbar_core::clock::exchange_day;
use tickerbar_core::domain::{format_value, ValueKind};
use tickerbar_core::decimal::Decimal;
use tickerbar_core::{
    calculate_position, render_tray_title, CompactStyle, ConnectionState, DisplayConfig,
    DisplayMetric, DomainError, MetricConfig, Position, QuoteSnapshot,
};

#[test]
fn a_return_that_does_not_fit_a_decimal_is_reported() {
    let quote = QuoteSnapshot::try_new("1000000000000", "1", "HKD", 0).expect("fixture quote");
    let tiny = Position::try_new("0.0000000000001", "0.000000000000001").expect("fixture position");
    assert!(matches!(
        calculate_position(&quote, &tiny),
        Err(DomainError::ArithmeticOverflow)
    ));
    let display = DisplayConfig {
        items: vec![MetricConfig::new(DisplayMetric::LastPrice).with_precision(2)],
        separator: " ".into(),
        append_closed_status: true,
        append_delayed_status: true,
    };
    assert!(matches!(
        render_tray_title(&quote, Some(&tiny), &display, &ConnectionState::Live),
        Err(DomainError::ArithmeticOverflow)
    ));
}

#[test]
fn a_zero_cost_basis_is_refused() {
    let quote = QuoteSnapshot::try_new("10", "9", "HKD", 0).expect("fixture quote");
    let free = Position::try_new("100", "0").expect("fixture position");
    assert_eq!(
        calculate_position(&quote, &free).map(|_| ()),
        Err(DomainError::ZeroCostBasis)
    );
}

#[test]
fn a_failed_authentication_shows_the_error_title() {
    let quote = QuoteSnapshot::try_new("10", "9", "HKD", 0).expect("fixture quote");
    let display = DisplayConfig {
        items: vec![MetricConfig::new(DisplayMetric::LastPrice)],
        separator: " ".into(),
        append_closed_status: true,
        append_delayed_status: true,
    };
    assert_eq!(
        render_tray_title(&quote, None, &display, &ConnectionState::AuthenticationFailed),
        Ok("行情异常".to_owned())
    );
    assert_eq!(
        render_tray_title(&quote, None, &display, &ConnectionState::Delayed),
        Ok("10.00 ·延".to_owned())
    );
    assert_eq!(
        render_tray_title(&quote, None, &display, &ConnectionState::Reconnecting),
        Ok("10.00 ↻".to_owned())
    );
}

#[test]
fn compact_numbers_use_the_chosen_units() {
    let value = Decimal::parse("123456789").expect("fixture decimal");
    let western = MetricConfig::new(DisplayMetric::MarketValue)
        .with_precision(1)
        .with_compact_style(CompactStyle::Western);
    assert_eq!(format_value(value, &western, ValueKind::Number), "123.5M");
    let chinese = MetricConfig::new(DisplayMetric::MarketValue)
        .with_precision(2)
        .with_compact_style(CompactStyle::Chinese);
    assert_eq!(format_value(value, &chinese, ValueKind::Number), "1.23亿");
    let plain = MetricConfig::new(DisplayMetric::MarketValue).with_precision(0);
    assert_eq!(format_value(value, &plain, ValueKind::Number), "123456789");
}

#[test]
fn input_errors_name_the_field() {
    assert_eq!(
        QuoteSnapshot::try_new("abc", "1", "HKD", 0)
            .map(|_| ())
            .map_err(|e| e.message()),
        Err("last price is not a valid decimal: abc".to_owned())
    );
    assert_eq!(
        QuoteSnapshot::try_new("1", "1", "HKD", 0)
            .expect("fixture quote")
            .with_day_range("2", "-1")
            .map(|_| ())
            .map_err(|e| e.message()),
        Err("day low cannot be negative: -1".to_owned())
    );
}

#[test]
fn exchange_day_is_empty_outside_the_calendar() {
    assert_eq!(exchange_day(-377_705_116_801), "");
    assert_eq!(exchange_day(0), "1970-01-01");
    assert_eq!(exchange_day(57_600), "1970-01-02");
}

#[test]
fn exchange_days_print_four_digit_years_with_a_sign_before_negative_ones() {
    assert_eq!(exchange_day(-377_705_116_800), "-9999-01-01");
    assert_eq!(exchange_day(-30_636_342_000), "0999-03-05");
    assert_eq!(exchange_day(-62_167_330_800), "-0001-12-31");
    assert_eq!(exchange_day(-62_162_146_800), "0000-02-29");
    assert_eq!(exchange_day(253_402_189_200), "9999-12-31");
}
