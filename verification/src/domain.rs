//! Quotes, positions, profit and loss, and the menu-bar title.

use vstd::prelude::*;

use crate::decimal::{
    checked_div, checked_mul, checked_sub, decimal_difference, decimal_le, decimal_parsed,
    decimal_product, decimal_quotient, decimal_text, decimal_to_string, nat_text, parse_decimal,
    exact_division_case, is_exact_quotient, pow10, value_le, Decimal, DecimalModel,
};
use crate::text::{
    chars_of, extend_chars, find_char, first_index, join, join_strings, joined, owned,
    repeat_char, slice_chars, string_of, texts,
};
use crate::decimal::{round_dp, round_dp_model};

verus! {

broadcast use vstd::string::group_string_axioms;

/// Errors of the domain rules.
///
/// `ArithmeticOverflow` marks a computation whose decimal result does not fit:
/// there the plain decimal operators would panic.
#[derive(Clone, Debug, PartialEq, Eq)]
pub enum DomainError {
    InvalidDecimal { name: &'static str, value: String },
    NegativeDecimal { name: &'static str, value: String },
    ValueTooLarge { name: &'static str, value: String },
    ZeroCostBasis,
    ZeroPreviousClose,
    SymbolRequired,
    EmptyStocks,
    TooManyStocks(usize),
    DuplicateSymbol(String),
    ActiveStockOutOfRange,
    AlertSymbolUnknown(String),
    AlertIdRequired,
    DuplicateAlertId(String),
    TooManyAlerts(usize),
    AlertPositionRequired(String),
    EmptyDisplayMetrics,
    NoRenderableMetrics,
    ArithmeticOverflow,
}

/// The message of a domain error.
pub open spec fn domain_error_text(e: DomainError) -> Seq<char> {
    match e {
        DomainError::InvalidDecimal { name, value } => name@ + " is not a valid decimal: "@
            + value@,
        DomainError::NegativeDecimal { name, value } => name@ + " cannot be negative: "@ + value@,
        DomainError::ValueTooLarge { name, value } => name@ + " is unreasonably large: "@ + value@,
        DomainError::ZeroCostBasis => "cost basis must be greater than zero"@,
        DomainError::ZeroPreviousClose => "previous close must be greater than zero"@,
        DomainError::SymbolRequired => "symbol is required"@,
        DomainError::EmptyStocks => "at least one stock is required"@,
        DomainError::TooManyStocks(count) => "at most 8 stocks are supported, got "@ + nat_text(
            count as nat,
        ),
        DomainError::DuplicateSymbol(symbol) => "duplicate stock symbol: "@ + symbol@,
        DomainError::ActiveStockOutOfRange => "active stock index is out of range"@,
        DomainError::AlertSymbolUnknown(symbol) => "alert references an unknown stock: "@
            + symbol@,
        DomainError::AlertIdRequired => "alert id is required"@,
        DomainError::DuplicateAlertId(id) => "duplicate alert id: "@ + id@,
        DomainError::TooManyAlerts(count) => "at most 20 alerts are supported, got "@ + nat_text(
            count as nat,
        ),
        DomainError::AlertPositionRequired(symbol) => "alert metric requires a position on stock: "@
            + symbol@,
        DomainError::EmptyDisplayMetrics => "at least one display metric is required"@,
        DomainError::NoRenderableMetrics => "no selected metric has a value"@,
        DomainError::ArithmeticOverflow => "a decimal result is out of range"@,
    }
}

/// The decimal text of a count.
pub fn count_text(n: usize) -> (r: String)
    ensures
        r@ == nat_text(n as nat),
{
    let d = Decimal::from_u64(n as u64);
    let r = decimal_to_string(d);
    assert(pow10(0) == 1);
    assert(decimal_text(d@) =~= nat_text(n as nat));
    r
}

impl DomainError {
    /// The human-readable message of this error.
    pub fn message(&self) -> (r: String)
        ensures
            r@ == domain_error_text(*self),
    {
        match self {
            DomainError::InvalidDecimal { name, value } => {
                let mut r = String::from_str(name);
                r.append(" is not a valid decimal: ");
                r.append(value.as_str());
                r
            },
            DomainError::NegativeDecimal { name, value } => {
                let mut r = String::from_str(name);
                r.append(" cannot be negative: ");
                r.append(value.as_str());
                r
            },
            DomainError::ValueTooLarge { name, value } => {
                let mut r = String::from_str(name);
                r.append(" is unreasonably large: ");
                r.append(value.as_str());
                r
            },
            DomainError::ZeroCostBasis => String::from_str("cost basis must be greater than zero"),
            DomainError::ZeroPreviousClose => String::from_str(
                "previous close must be greater than zero",
            ),
            DomainError::SymbolRequired => String::from_str("symbol is required"),
            DomainError::EmptyStocks => String::from_str("at least one stock is required"),
            DomainError::TooManyStocks(count) => {
                let mut r = String::from_str("at most 8 stocks are supported, got ");
                let n = count_text(*count);
                r.append(n.as_str());
                r
            },
            DomainError::DuplicateSymbol(symbol) => joined(
                "duplicate stock symbol: ",
                symbol.as_str(),
            ),
            DomainError::ActiveStockOutOfRange => String::from_str(
                "active stock index is out of range",
            ),
            DomainError::AlertSymbolUnknown(symbol) => joined(
                "alert references an unknown stock: ",
                symbol.as_str(),
            ),
            DomainError::AlertIdRequired => String::from_str("alert id is required"),
            DomainError::DuplicateAlertId(id) => joined("duplicate alert id: ", id.as_str()),
            DomainError::TooManyAlerts(count) => {
                let mut r = String::from_str("at most 20 alerts are supported, got ");
                let n = count_text(*count);
                r.append(n.as_str());
                r
            },
            DomainError::AlertPositionRequired(symbol) => joined(
                "alert metric requires a position on stock: ",
                symbol.as_str(),
            ),
            DomainError::EmptyDisplayMetrics => String::from_str(
                "at least one display metric is required",
            ),
            DomainError::NoRenderableMetrics => String::from_str("no selected metric has a value"),
            DomainError::ArithmeticOverflow => String::from_str("a decimal result is out of range"),
        }
    }
}

/// The largest magnitude accepted for an outside input (one trillion).
pub open spec fn max_supported_model() -> DecimalModel {
    (1_000_000_000_000nat, 0nat, false)
}

/// Whether `|d|` is at most one trillion.
pub open spec fn bounded_magnitude(d: DecimalModel) -> bool {
    value_le((d.0, d.1, false), max_supported_model())
}

/// Whether `d` is non-negative (no sign flag, so `-0` is refused) and at most one trillion.
pub open spec fn supported_magnitude(d: DecimalModel) -> bool {
    !d.2 && bounded_magnitude(d)
}

/// `e` is the error naming `name` and the text of `d` for a value out of range:
/// a value with the sign flag is negative, any other one too large.
pub open spec fn is_magnitude_error(name: Seq<char>, d: DecimalModel, e: DomainError) -> bool {
    if d.2 {
        e matches DomainError::NegativeDecimal { name: n, value: v } && n@ == name && v@
            == decimal_text(d)
    } else {
        is_too_large_error(name, d, e)
    }
}

/// `e` is the "unreasonably large" error naming `name` and the text of `d`.
pub open spec fn is_too_large_error(name: Seq<char>, d: DecimalModel, e: DomainError) -> bool {
    e matches DomainError::ValueTooLarge { name: n, value: v } && n@ == name && v@ == decimal_text(
        d,
    )
}

/// The outcome of reading a non-negative, bounded decimal from `text`.
pub open spec fn parsed_input_ok(text: Seq<char>, d: DecimalModel) -> bool {
    decimal_parsed(text) == Some(d) && supported_magnitude(d)
}

/// Whether `text` holds a non-negative decimal of at most one trillion.
pub open spec fn acceptable_input(text: Seq<char>) -> bool {
    decimal_parsed(text) matches Some(d) && supported_magnitude(d)
}

/// `e` is the error given for `text`, which does not hold an acceptable decimal.
pub open spec fn is_input_error(name: Seq<char>, text: Seq<char>, e: DomainError) -> bool {
    match decimal_parsed(text) {
        None => e matches DomainError::InvalidDecimal { name: n, value: v } && n@ == name && v@
            == text,
        Some(d) => !supported_magnitude(d) && is_magnitude_error(name, d, e),
    }
}

/// One trillion.
fn max_supported_value() -> (r: Decimal)
    ensures
        r@ == max_supported_model(),
{
    Decimal::from_u64(1_000_000_000_000)
}

/// Refuses a value whose absolute value exceeds one trillion; negative values pass.
pub fn ensure_bounded_magnitude(name: &'static str, value: Decimal) -> (r: Result<(), DomainError>)
    ensures
        r is Ok <==> bounded_magnitude(value@),
        r matches Err(e) ==> is_too_large_error(name@, value@, e),
{
    if !decimal_le(value.abs(), max_supported_value()) {
        let text = decimal_to_string(value);
        return Err(DomainError::ValueTooLarge { name, value: text });
    }
    Ok(())
}

/// Refuses a negative value (the sign flag set, `-0` included) or one above one trillion.
pub fn ensure_supported_magnitude(name: &'static str, value: Decimal) -> (r: Result<(), DomainError>)
    ensures
        r is Ok <==> supported_magnitude(value@),
        r matches Err(e) ==> is_magnitude_error(name@, value@, e),
{
    if value.is_sign_negative() {
        let text = decimal_to_string(value);
        return Err(DomainError::NegativeDecimal { name, value: text });
    }
    ensure_bounded_magnitude(name, value)
}

/// Reads a non-negative decimal of at most one trillion from `text`.
pub fn parse_non_negative_decimal(name: &'static str, text: &str) -> (r: Result<Decimal, DomainError>)
    ensures
        r matches Ok(d) ==> parsed_input_ok(text@, d@),
        r matches Err(e) ==> is_input_error(name@, text@, e),
        r is Ok <==> acceptable_input(text@),
{
    match parse_decimal(text) {
        None => Err(DomainError::InvalidDecimal { name, value: owned(text) }),
        Some(d) => {
            match ensure_supported_magnitude(name, d) {
                Ok(()) => Ok(d),
                Err(e) => Err(e),
            }
        },
    }
}

/// A quote of one stock.
#[derive(Clone, Debug)]
pub struct QuoteSnapshot {
    pub symbol: Option<String>,
    pub short_name: Option<String>,
    pub last_price: Decimal,
    pub previous_close: Decimal,
    pub day_high: Option<Decimal>,
    pub day_low: Option<Decimal>,
    pub currency: String,
    pub timestamp: i64,
    pub updated_time: Option<String>,
}

/// A local position: quantity held and average cost.
#[derive(Clone, Debug)]
pub struct Position {
    pub quantity: Decimal,
    pub average_cost: Decimal,
}

/// Profit and loss of a position at a quote.
#[derive(Clone, Debug)]
pub struct PositionPnl {
    pub market_value: Decimal,
    pub cost_basis: Decimal,
    pub unrealized_profit: Decimal,
    pub return_percent: Decimal,
}

/// The optional text of an optional string.
pub open spec fn opt_text(s: Option<String>) -> Option<Seq<char>> {
    match s {
        Some(t) => Some(t@),
        None => None,
    }
}

/// The optional model of an optional decimal.
pub open spec fn opt_decimal(d: Option<Decimal>) -> Option<DecimalModel> {
    match d {
        Some(x) => Some(x@),
        None => None,
    }
}

impl QuoteSnapshot {
    /// A quote with the given prices, currency and time, and no identity, range or clock.
    pub fn try_new(last_price: &str, previous_close: &str, currency: &str, timestamp: i64) -> (r: Result<Self, DomainError>)
        ensures
            r matches Ok(q) ==> {
                &&& parsed_input_ok(last_price@, q.last_price@)
                &&& parsed_input_ok(previous_close@, q.previous_close@)
                &&& q.currency@ == currency@
                &&& q.timestamp == timestamp
                &&& q.symbol is None && q.short_name is None
                &&& q.day_high is None && q.day_low is None
                &&& q.updated_time is None
            },
            r matches Err(e) ==> {
                ||| is_input_error("last price"@, last_price@, e)
                ||| (acceptable_input(last_price@) && is_input_error(
                    "previous close"@,
                    previous_close@,
                    e,
                ))
            },
            r is Ok <==> (acceptable_input(last_price@) && acceptable_input(previous_close@)),
    {
        let last_price = match parse_non_negative_decimal("last price", last_price) {
            Ok(d) => d,
            Err(e) => return Err(e),
        };
        let previous_close = match parse_non_negative_decimal("previous close", previous_close) {
            Ok(d) => d,
            Err(e) => return Err(e),
        };
        Ok(QuoteSnapshot {
            symbol: None,
            short_name: None,
            last_price,
            previous_close,
            day_high: None,
            day_low: None,
            currency: owned(currency),
            timestamp,
            updated_time: None,
        })
    }

    /// The same quote with a symbol and a short name.
    pub fn with_identity(self, symbol: &str, short_name: &str) -> (r: Self)
        ensures
            opt_text(r.symbol) == Some(symbol@),
            opt_text(r.short_name) == Some(short_name@),
            r.last_price == self.last_price,
            r.previous_close == self.previous_close,
            r.day_high == self.day_high,
            r.day_low == self.day_low,
            r.currency == self.currency,
            r.timestamp == self.timestamp,
            r.updated_time == self.updated_time,
    {
        let mut q = self;
        q.symbol = Some(owned(symbol));
        q.short_name = Some(owned(short_name));
        q
    }

    /// The same quote with the day's high and low read from text.
    pub fn with_day_range(self, high: &str, low: &str) -> (r: Result<Self, DomainError>)
        ensures
            r matches Ok(q) ==> {
                &&& q.day_high matches Some(h) && parsed_input_ok(high@, h@)
                &&& q.day_low matches Some(l) && parsed_input_ok(low@, l@)
                &&& q.symbol == self.symbol && q.short_name == self.short_name
                &&& q.last_price == self.last_price && q.previous_close == self.previous_close
                &&& q.currency == self.currency && q.timestamp == self.timestamp
                &&& q.updated_time == self.updated_time
            },
            r matches Err(e) ==> {
                ||| is_input_error("day high"@, high@, e)
                ||| (acceptable_input(high@) && is_input_error(
                    "day low"@,
                    low@,
                    e,
                ))
            },
            r is Ok <==> (acceptable_input(high@) && acceptable_input(low@)),
    {
        let high = match parse_non_negative_decimal("day high", high) {
            Ok(d) => d,
            Err(e) => return Err(e),
        };
        let low = match parse_non_negative_decimal("day low", low) {
            Ok(d) => d,
            Err(e) => return Err(e),
        };
        let mut q = self;
        q.day_high = Some(high);
        q.day_low = Some(low);
        Ok(q)
    }

    /// The same quote with the clock text of its last update.
    pub fn with_updated_time(self, updated_time: &str) -> (r: Self)
        ensures
            opt_text(r.updated_time) == Some(updated_time@),
            r.symbol == self.symbol,
            r.short_name == self.short_name,
            r.last_price == self.last_price,
            r.previous_close == self.previous_close,
            r.day_high == self.day_high,
            r.day_low == self.day_low,
            r.currency == self.currency,
            r.timestamp == self.timestamp,
    {
        let mut q = self;
        q.updated_time = Some(owned(updated_time));
        q
    }
}

impl Position {
    /// A position read from the text of its quantity and average cost.
    pub fn try_new(quantity: &str, average_cost: &str) -> (r: Result<Self, DomainError>)
        ensures
            r matches Ok(p) ==> parsed_input_ok(quantity@, p.quantity@) && parsed_input_ok(
                average_cost@,
                p.average_cost@,
            ),
            r matches Err(e) ==> {
                ||| is_input_error("quantity"@, quantity@, e)
                ||| (acceptable_input(quantity@) && is_input_error(
                    "average cost"@,
                    average_cost@,
                    e,
                ))
            },
            r is Ok <==> (acceptable_input(quantity@) && acceptable_input(average_cost@)),
    {
        let quantity = match parse_non_negative_decimal("quantity", quantity) {
            Ok(d) => d,
            Err(e) => return Err(e),
        };
        let average_cost = match parse_non_negative_decimal("average cost", average_cost) {
            Ok(d) => d,
            Err(e) => return Err(e),
        };
        Ok(Position { quantity, average_cost })
    }
}

/// What profit and loss come to for a last price, an average cost and a quantity.
pub enum PnlModel {
    ZeroCostBasis,
    Overflow,
    Computed {
        market_value: DecimalModel,
        cost_basis: DecimalModel,
        profit: DecimalModel,
        return_percent: DecimalModel,
    },
}

/// Cost basis `cost × quantity` (zero is refused), market value `last × quantity`,
/// profit `market − cost basis`, return `profit ÷ cost basis × 100`, each as
/// `rust_decimal` computes it.
pub open spec fn pnl_model(last: DecimalModel, cost: DecimalModel, quantity: DecimalModel) -> PnlModel {
    match decimal_product(cost, quantity) {
        None => PnlModel::Overflow,
        Some(basis) => if basis.0 == 0 {
            PnlModel::ZeroCostBasis
        } else {
            match decimal_product(last, quantity) {
                None => PnlModel::Overflow,
                Some(market) => match decimal_difference(market, basis) {
                    None => PnlModel::Overflow,
                    Some(profit) => match decimal_quotient(profit, basis) {
                        None => PnlModel::Overflow,
                        Some(ratio) => match decimal_product(ratio, (100nat, 0nat, false)) {
                            None => PnlModel::Overflow,
                            Some(percent) => PnlModel::Computed {
                                market_value: market,
                                cost_basis: basis,
                                profit,
                                return_percent: percent,
                            },
                        },
                    },
                },
            }
        },
    }
}

/// The profit-and-loss model of a position at a quote.
pub open spec fn position_pnl(quote: QuoteSnapshot, position: Position) -> PnlModel {
    pnl_model(quote.last_price@, position.average_cost@, position.quantity@)
}

/// Computes market value, cost basis, unrealized profit and return percent.
pub fn calculate_position(quote: &QuoteSnapshot, position: &Position) -> (r: Result<PositionPnl, DomainError>)
    ensures
        match position_pnl(*quote, *position) {
            PnlModel::ZeroCostBasis => r matches Err(DomainError::ZeroCostBasis),
            PnlModel::Overflow => r matches Err(DomainError::ArithmeticOverflow),
            PnlModel::Computed { market_value, cost_basis, profit, return_percent } => r matches Ok(
                p,
            ) && p.market_value@ == market_value && p.cost_basis@ == cost_basis
                && p.unrealized_profit@ == profit && p.return_percent@ == return_percent,
        },
{
    let cost_basis = match checked_mul(position.average_cost, position.quantity) {
        Some(d) => d,
        None => return Err(DomainError::ArithmeticOverflow),
    };
    if cost_basis.is_zero() {
        return Err(DomainError::ZeroCostBasis);
    }
    let market_value = match checked_mul(quote.last_price, position.quantity) {
        Some(d) => d,
        None => return Err(DomainError::ArithmeticOverflow),
    };
    let unrealized_profit = match checked_sub(market_value, cost_basis) {
        Some(d) => d,
        None => return Err(DomainError::ArithmeticOverflow),
    };
    let ratio = match checked_div(unrealized_profit, cost_basis) {
        Some(d) => d,
        None => return Err(DomainError::ArithmeticOverflow),
    };
    let return_percent = match checked_mul(ratio, Decimal::one_hundred()) {
        Some(d) => d,
        None => return Err(DomainError::ArithmeticOverflow),
    };
    Ok(PositionPnl { market_value, cost_basis, unrealized_profit, return_percent })
}

/// A value that can be shown in the title.
#[derive(Clone, Copy, Debug, PartialEq, Eq, Structural)]
pub enum DisplayMetric {
    Symbol,
    ShortName,
    LastPrice,
    DailyChange,
    DailyChangePercent,
    PreviousClose,
    DayHigh,
    DayLow,
    PositionProfit,
    PositionReturnPercent,
    MarketValue,
    AverageCost,
    Quantity,
    ProfitPerShare,
    MarketStatus,
    UpdatedTime,
}

/// How large numbers are shortened.
#[derive(Clone, Copy, Debug, PartialEq, Eq, Structural)]
pub enum CompactStyle {
    Plain,
    Western,
    Chinese,
}

/// How one metric is shown.
#[derive(Clone, Debug)]
pub struct MetricConfig {
    pub metric: DisplayMetric,
    pub precision: u32,
    pub show_sign: bool,
    pub direction_arrow: bool,
    pub compact_style: CompactStyle,
    pub label: Option<String>,
}

impl MetricConfig {
    /// A metric shown with two decimals, no sign, no arrow, no shortening and no label.
    pub fn new(metric: DisplayMetric) -> (r: Self)
        ensures
            r.metric == metric,
            r.precision == 2,
            !r.show_sign,
            !r.direction_arrow,
            r.compact_style == CompactStyle::Plain,
            r.label is None,
    {
        MetricConfig {
            metric,
            precision: 2,
            show_sign: false,
            direction_arrow: false,
            compact_style: CompactStyle::Plain,
            label: None,
        }
    }

    /// The same configuration with `precision` decimals.
    pub fn with_precision(self, precision: u32) -> (r: Self)
        ensures
            r.precision == precision,
            r.metric == self.metric,
            r.show_sign == self.show_sign,
            r.direction_arrow == self.direction_arrow,
            r.compact_style == self.compact_style,
            r.label == self.label,
    {
        let mut c = self;
        c.precision = precision;
        c
    }

    /// The same configuration with a `+` on positive values.
    pub fn with_sign(self) -> (r: Self)
        ensures
            r.show_sign,
            r.metric == self.metric,
            r.precision == self.precision,
            r.direction_arrow == self.direction_arrow,
            r.compact_style == self.compact_style,
            r.label == self.label,
    {
        let mut c = self;
        c.show_sign = true;
        c
    }

    /// The same configuration with an up or down arrow in place of the sign.
    pub fn with_direction_arrow(self) -> (r: Self)
        ensures
            r.direction_arrow,
            r.metric == self.metric,
            r.precision == self.precision,
            r.show_sign == self.show_sign,
            r.compact_style == self.compact_style,
            r.label == self.label,
    {
        let mut c = self;
        c.direction_arrow = true;
        c
    }

    /// The same configuration with another way of shortening large numbers.
    pub fn with_compact_style(self, style: CompactStyle) -> (r: Self)
        ensures
            r.compact_style == style,
            r.metric == self.metric,
            r.precision == self.precision,
            r.show_sign == self.show_sign,
            r.direction_arrow == self.direction_arrow,
            r.label == self.label,
    {
        let mut c = self;
        c.compact_style = style;
        c
    }

    /// The same configuration with a label put in front of the value.
    pub fn with_label(self, label: &str) -> (r: Self)
        ensures
            opt_text(r.label) == Some(label@),
            r.metric == self.metric,
            r.precision == self.precision,
            r.show_sign == self.show_sign,
            r.direction_arrow == self.direction_arrow,
            r.compact_style == self.compact_style,
    {
        let mut c = self;
        c.label = Some(owned(label));
        c
    }
}

/// Which metrics make up the title, and how it is decorated.
#[derive(Clone, Debug)]
pub struct DisplayConfig {
    pub items: Vec<MetricConfig>,
    pub separator: String,
    pub append_closed_status: bool,
    pub append_delayed_status: bool,
}

/// The state of the quote feed for a stock.
#[derive(Clone, Copy, Debug, PartialEq, Eq, Structural)]
pub enum ConnectionState {
    Connecting,
    Live,
    Delayed,
    Closed,
    Reconnecting,
    Disconnected,
    AuthenticationFailed,
}

/// Whether a value is shown as a number or as a percentage.
#[derive(Clone, Copy, Debug, PartialEq, Eq, Structural)]
pub enum ValueKind {
    Number,
    Percent,
}

/// `text` with the label, if any, put in front.
pub open spec fn labelled(text: Seq<char>, label: Option<String>) -> Seq<char> {
    match label {
        Some(l) => l@ + text,
        None => text,
    }
}

/// The value with its sign flag cleared.
pub open spec fn abs_model(d: DecimalModel) -> DecimalModel {
    (d.0, d.1, false)
}

/// `value / divisor` as `rust_decimal` computes it (the divisors used are at least one,
/// which never fails).
pub open spec fn divided(value: DecimalModel, divisor: nat) -> DecimalModel {
    match decimal_quotient(value, (divisor, 0nat, false)) {
        Some(q) => q,
        None => value,
    }
}

/// A value scaled down for shortening, with the unit to show after it.
pub open spec fn compact_model(value: DecimalModel, style: CompactStyle) -> (DecimalModel, Seq<char>) {
    let a = abs_model(value);
    match style {
        CompactStyle::Plain => (value, ""@),
        CompactStyle::Chinese => if value_le((100_000_000nat, 0nat, false), a) {
            (divided(value, 100_000_000), "亿"@)
        } else if value_le((10_000nat, 0nat, false), a) {
            (divided(value, 10_000), "万"@)
        } else {
            (value, ""@)
        },
        CompactStyle::Western => if value_le((1_000_000nat, 0nat, false), a) {
            (divided(value, 1_000_000), "M"@)
        } else if value_le((1_000nat, 0nat, false), a) {
            (divided(value, 1_000), "K"@)
        } else {
            (value, ""@)
        },
    }
}

/// Whether `rust_decimal` divides `v` by `k` exactly.
pub open spec fn divides_exactly(v: DecimalModel, k: nat) -> bool {
    decimal_quotient(v, (k, 0nat, false)) matches Some(q) && is_exact_quotient(q, v, k)
}

/// What the compact styles show: in the Western style a value of at least a million
/// in absolute value is shown in millions (`M`), one of at least a thousand in
/// thousands (`K`), a smaller one as it is; in the Chinese style at least 10^8 in 亿,
/// at least 10^4 in 万, smaller as it is. A shown number times its unit gives back the
/// value whenever `rust_decimal` divides it exactly (as it does for every value of at
/// most 64 bits and scale at most 19, see `compact_value`).
pub proof fn lemma_compact_units(v: DecimalModel, style: CompactStyle)
    ensures
        ({
            let (shown, unit) = compact_model(v, style);
            let a = abs_model(v);
            &&& style == CompactStyle::Plain ==> shown == v && unit == ""@
            &&& style == CompactStyle::Western ==> {
                &&& value_le((1_000_000nat, 0nat, false), a) ==> unit == "M"@ && (
                divides_exactly(v, 1_000_000) ==> is_exact_quotient(shown, v, 1_000_000))
                &&& (value_le((1_000nat, 0nat, false), a) && !value_le(
                    (1_000_000nat, 0nat, false),
                    a,
                )) ==> unit == "K"@ && (divides_exactly(v, 1_000) ==> is_exact_quotient(
                    shown,
                    v,
                    1_000,
                ))
                &&& !value_le((1_000nat, 0nat, false), a) ==> shown == v && unit == ""@
            }
            &&& style == CompactStyle::Chinese ==> {
                &&& value_le((100_000_000nat, 0nat, false), a) ==> unit == "亿"@ && (
                divides_exactly(v, 100_000_000) ==> is_exact_quotient(shown, v, 100_000_000))
                &&& (value_le((10_000nat, 0nat, false), a) && !value_le(
                    (100_000_000nat, 0nat, false),
                    a,
                )) ==> unit == "万"@ && (divides_exactly(v, 10_000) ==> is_exact_quotient(
                    shown,
                    v,
                    10_000,
                ))
                &&& !value_le((10_000nat, 0nat, false), a) ==> shown == v && unit == ""@
            }
        }),
{
}

/// `t` with exactly `precision` fractional digits: cut at the point for zero
/// precision, otherwise a point added when missing and zeros appended.
pub open spec fn fixed_text(t: Seq<char>, precision: nat) -> Seq<char> {
    if precision == 0 {
        match first_index(t, '.') {
            Some(i) => t.take(i),
            None => t,
        }
    } else {
        let t2 = match first_index(t, '.') {
            Some(i) => t,
            None => t.push('.'),
        };
        let fraction = match first_index(t2, '.') {
            Some(i) => t2.len() - i - 1,
            None => 0,
        };
        if fraction < precision {
            t2 + repeat_char('0', (precision - fraction) as nat)
        } else {
            t2
        }
    }
}

/// A rounded value with zero made an unsigned zero.
pub open spec fn rounded_model(value: DecimalModel, precision: nat) -> DecimalModel {
    let r = round_dp_model(value, precision);
    if r.0 == 0 {
        (0nat, 0nat, false)
    } else {
        r
    }
}

/// What goes in front of a rounded number: an arrow, a minus, a plus or nothing.
pub open spec fn sign_prefix(rounded: DecimalModel, show_sign: bool, arrow: bool) -> Seq<char> {
    if arrow {
        if !rounded.2 && rounded.0 != 0 {
            "↑"@
        } else if rounded.2 {
            "↓"@
        } else {
            ""@
        }
    } else if rounded.2 {
        "-"@
    } else if show_sign && rounded.0 != 0 {
        "+"@
    } else {
        ""@
    }
}

/// How a value is shown by a metric configuration.
pub open spec fn formatted(value: DecimalModel, config: MetricConfig, kind: ValueKind) -> Seq<char> {
    let (scaled, unit) = compact_model(value, config.compact_style);
    let rounded = rounded_model(scaled, config.precision as nat);
    let number = fixed_text(decimal_text(abs_model(rounded)), config.precision as nat);
    let prefix = sign_prefix(rounded, config.show_sign, config.direction_arrow);
    let suffix = match kind {
        ValueKind::Number => unit,
        ValueKind::Percent => "%"@,
    };
    labelled(prefix + number + suffix, config.label)
}

/// `value` with the configured label in front.
pub fn apply_label(value: String, config: &MetricConfig) -> (r: String)
    ensures
        r@ == labelled(value@, config.label),
{
    match &config.label {
        Some(label) => joined(label.as_str(), value.as_str()),
        None => value,
    }
}

fn compact_value(value: Decimal, style: CompactStyle) -> (r: (Decimal, &'static str))
    ensures
        (r.0@, r.1@) == compact_model(value@, style),
        ({
            let a = abs_model(value@);
            &&& style == CompactStyle::Plain ==> r.0@ == value@ && r.1@ == ""@
            &&& style == CompactStyle::Western ==> {
                &&& value_le((1_000_000nat, 0nat, false), a) ==> r.1@ == "M"@ && (exact_division_case(value@, 1_000_000)
                    ==> is_exact_quotient(r.0@, value@, 1_000_000))
                &&& (value_le((1_000nat, 0nat, false), a) && !value_le(
                    (1_000_000nat, 0nat, false),
                    a,
                )) ==> r.1@ == "K"@ && (exact_division_case(value@, 1_000) ==> is_exact_quotient(r.0@, value@, 1_000))
                &&& !value_le((1_000nat, 0nat, false), a) ==> r.0@ == value@ && r.1@ == ""@
            }
            &&& style == CompactStyle::Chinese ==> {
                &&& value_le((100_000_000nat, 0nat, false), a) ==> r.1@ == "亿"@ && (exact_division_case(value@, 100_000_000)
                    ==> is_exact_quotient(r.0@, value@, 100_000_000))
                &&& (value_le((10_000nat, 0nat, false), a) && !value_le(
                    (100_000_000nat, 0nat, false),
                    a,
                )) ==> r.1@ == "万"@ && (exact_division_case(value@, 10_000) ==> is_exact_quotient(r.0@, value@, 10_000))
                &&& !value_le((10_000nat, 0nat, false), a) ==> r.0@ == value@ && r.1@ == ""@
            }
        }),
{
    let absolute = value.abs();
    match style {
        CompactStyle::Plain => (value, ""),
        CompactStyle::Chinese => {
            if decimal_le(Decimal::from_u64(100_000_000), absolute) {
                (divide_by(value, 100_000_000), "亿")
            } else if decimal_le(Decimal::from_u64(10_000), absolute) {
                (divide_by(value, 10_000), "万")
            } else {
                (value, "")
            }
        },
        CompactStyle::Western => {
            if decimal_le(Decimal::from_u64(1_000_000), absolute) {
                (divide_by(value, 1_000_000), "M")
            } else if decimal_le(Decimal::from_u64(1_000), absolute) {
                (divide_by(value, 1_000), "K")
            } else {
                (value, "")
            }
        },
    }
}

fn divide_by(value: Decimal, divisor: u64) -> (r: Decimal)
    requires
        divisor >= 1,
    ensures
        r@ == divided(value@, divisor as nat),
        exact_division_case(value@, divisor as nat) ==> is_exact_quotient(
            r@,
            value@,
            divisor as nat,
        ),
{
    let d = Decimal::from_u64(divisor);
    assert(pow10(0) == 1);
    match checked_div(value, d) {
        Some(q) => q,
        None => value,
    }
}

/// `t` with exactly `precision` fractional digits.
pub fn fixed_decimal(t: &Vec<char>, precision: u32) -> (r: Vec<char>)
    ensures
        r@ == fixed_text(t@, precision as nat),
{
    if precision == 0 {
        return match find_char(t, '.') {
            Some(i) => slice_chars(t, 0, i),
            None => slice_chars(t, 0, t.len()),
        };
    }
    let mut out = slice_chars(t, 0, t.len());
    assert(out@ =~= t@);
    if find_char(&out, '.').is_none() {
        out.push('.');
    }
    let fraction: usize = match find_char(&out, '.') {
        Some(i) => out.len() - i - 1,
        None => 0,
    };
    let ghost t2 = out@;
    let p = precision as usize;
    if fraction < p {
        let mut k: usize = fraction;
        while k < p
            invariant
                fraction <= k <= p,
                out@ == t2 + repeat_char('0', (k - fraction) as nat),
            decreases p - k,
        {
            out.push('0');
            assert(t2 + repeat_char('0', (k - fraction) as nat).push('0') =~= t2 + repeat_char(
                '0',
                (k + 1 - fraction) as nat,
            ));
            k += 1;
        }
    }
    out
}

/// Formats a value for the title.
pub fn format_value(value: Decimal, config: &MetricConfig, kind: ValueKind) -> (r: String)
    ensures
        r@ == formatted(value@, *config, kind),
{
    let (scaled, unit) = compact_value(value, config.compact_style);
    let r0 = round_dp(scaled, config.precision);
    let rounded = if r0.is_zero() {
        Decimal::zero()
    } else {
        r0
    };
    let number_text = decimal_to_string(rounded.abs());
    let number_chars = chars_of(number_text.as_str());
    let number = string_of(&fixed_decimal(&number_chars, config.precision));
    let prefix: &str = if config.direction_arrow {
        if rounded.is_sign_positive() && !rounded.is_zero() {
            "↑"
        } else if rounded.is_sign_negative() {
            "↓"
        } else {
            ""
        }
    } else if rounded.is_sign_negative() {
        "-"
    } else if config.show_sign && !rounded.is_zero() {
        "+"
    } else {
        ""
    };
    let suffix: &str = match kind {
        ValueKind::Number => unit,
        ValueKind::Percent => "%",
    };
    let mut text = String::from_str(prefix);
    text.append(number.as_str());
    text.append(suffix);
    apply_label(text, config)
}

/// The text a connection state shows as the market-status metric.
pub open spec fn status_text(c: ConnectionState) -> Seq<char> {
    match c {
        ConnectionState::Connecting | ConnectionState::Reconnecting => "连"@,
        ConnectionState::Live => "交易中"@,
        ConnectionState::Delayed => "延"@,
        ConnectionState::Closed => "收"@,
        ConnectionState::Disconnected => "断"@,
        ConnectionState::AuthenticationFailed => "异常"@,
    }
}

/// The market-status text of a connection state.
pub fn market_status_text(connection: &ConnectionState) -> (r: &'static str)
    ensures
        r@ == status_text(*connection),
{
    match connection {
        ConnectionState::Connecting | ConnectionState::Reconnecting => "连",
        ConnectionState::Live => "交易中",
        ConnectionState::Delayed => "延",
        ConnectionState::Closed => "收",
        ConnectionState::Disconnected => "断",
        ConnectionState::AuthenticationFailed => "异常",
    }
}

/// What one metric contributes to the title.
pub enum MetricOutcome {
    /// The metric has no value here and is left out.
    Skip,
    /// Computing the value overflows.
    Overflow,
    /// The metric's text.
    Text(Seq<char>),
}

/// The position, if any, behind an optional reference.
pub open spec fn opt_position(p: Option<&Position>) -> Option<Position> {
    match p {
        Some(x) => Some(*x),
        None => None,
    }
}

/// Market value, cost basis, profit and return of the position, when they can be computed.
pub open spec fn pnl_values(quote: QuoteSnapshot, position: Option<Position>) -> Option<
    (DecimalModel, DecimalModel, DecimalModel, DecimalModel),
> {
    match position {
        Some(p) => match position_pnl(quote, p) {
            PnlModel::Computed { market_value, cost_basis, profit, return_percent } => Some(
                (market_value, cost_basis, profit, return_percent),
            ),
            _ => None,
        },
        None => None,
    }
}

/// Whether computing the position's profit and loss overflows.
pub open spec fn pnl_overflows(quote: QuoteSnapshot, position: Option<Position>) -> bool {
    position matches Some(p) && position_pnl(quote, p) is Overflow
}

/// The text of an optional value, formatted, or a skip.
pub open spec fn formatted_opt(value: Option<DecimalModel>, item: MetricConfig, kind: ValueKind) -> MetricOutcome {
    match value {
        Some(v) => MetricOutcome::Text(formatted(v, item, kind)),
        None => MetricOutcome::Skip,
    }
}

/// The text of an optional string with the label in front, or a skip.
pub open spec fn labelled_opt(value: Option<String>, item: MetricConfig) -> MetricOutcome {
    match value {
        Some(v) => MetricOutcome::Text(labelled(v@, item.label)),
        None => MetricOutcome::Skip,
    }
}

/// What `item` contributes to the title of `quote`.
pub open spec fn metric_outcome(
    item: MetricConfig,
    quote: QuoteSnapshot,
    position: Option<Position>,
    connection: ConnectionState,
) -> MetricOutcome {
    let last = quote.last_price@;
    let previous = quote.previous_close@;
    let pnl = pnl_values(quote, position);
    match item.metric {
        DisplayMetric::Symbol => labelled_opt(quote.symbol, item),
        DisplayMetric::ShortName => labelled_opt(quote.short_name, item),
        DisplayMetric::LastPrice => MetricOutcome::Text(formatted(last, item, ValueKind::Number)),
        DisplayMetric::DailyChange => match decimal_difference(last, previous) {
            Some(change) => MetricOutcome::Text(formatted(change, item, ValueKind::Number)),
            None => MetricOutcome::Overflow,
        },
        DisplayMetric::DailyChangePercent => if previous.0 == 0 {
            MetricOutcome::Skip
        } else {
            match decimal_difference(last, previous) {
                None => MetricOutcome::Overflow,
                Some(change) => match decimal_quotient(change, previous) {
                    None => MetricOutcome::Overflow,
                    Some(ratio) => match decimal_product(ratio, (100nat, 0nat, false)) {
                        None => MetricOutcome::Overflow,
                        Some(percent) => MetricOutcome::Text(
                            formatted(percent, item, ValueKind::Percent),
                        ),
                    },
                },
            }
        },
        DisplayMetric::PreviousClose => MetricOutcome::Text(
            formatted(previous, item, ValueKind::Number),
        ),
        DisplayMetric::DayHigh => formatted_opt(opt_decimal(quote.day_high), item, ValueKind::Number),
        DisplayMetric::DayLow => formatted_opt(opt_decimal(quote.day_low), item, ValueKind::Number),
        DisplayMetric::PositionProfit => match pnl {
            Some(v) => MetricOutcome::Text(formatted(v.2, item, ValueKind::Number)),
            None => MetricOutcome::Skip,
        },
        DisplayMetric::PositionReturnPercent => match pnl {
            Some(v) => MetricOutcome::Text(formatted(v.3, item, ValueKind::Percent)),
            None => MetricOutcome::Skip,
        },
        DisplayMetric::MarketValue => match pnl {
            Some(v) => MetricOutcome::Text(formatted(v.0, item, ValueKind::Number)),
            None => MetricOutcome::Skip,
        },
        DisplayMetric::AverageCost => match position {
            Some(p) => MetricOutcome::Text(formatted(p.average_cost@, item, ValueKind::Number)),
            None => MetricOutcome::Skip,
        },
        DisplayMetric::Quantity => match position {
            Some(p) => MetricOutcome::Text(formatted(p.quantity@, item, ValueKind::Number)),
            None => MetricOutcome::Skip,
        },
        DisplayMetric::ProfitPerShare => match position {
            Some(p) => match decimal_difference(last, p.average_cost@) {
                Some(d) => MetricOutcome::Text(formatted(d, item, ValueKind::Number)),
                None => MetricOutcome::Overflow,
            },
            None => MetricOutcome::Skip,
        },
        DisplayMetric::MarketStatus => MetricOutcome::Text(
            labelled(status_text(connection), item.label),
        ),
        DisplayMetric::UpdatedTime => labelled_opt(quote.updated_time, item),
    }
}

/// The texts of the metrics that have a value, in the configured order.
pub open spec fn rendered_parts(
    items: Seq<MetricConfig>,
    quote: QuoteSnapshot,
    position: Option<Position>,
    connection: ConnectionState,
) -> Seq<Seq<char>>
    decreases items.len(),
{
    if items.len() == 0 {
        Seq::empty()
    } else {
        let before = rendered_parts(items.drop_last(), quote, position, connection);
        match metric_outcome(items.last(), quote, position, connection) {
            MetricOutcome::Text(t) => before.push(t),
            _ => before,
        }
    }
}

/// Whether some configured metric overflows.
pub open spec fn some_metric_overflows(
    items: Seq<MetricConfig>,
    quote: QuoteSnapshot,
    position: Option<Position>,
    connection: ConnectionState,
) -> bool {
    exists|i: int|
        0 <= i < items.len() && metric_outcome(items[i], quote, position, connection) is Overflow
}

/// Whether the market-status metric is among the configured ones.
pub open spec fn shows_market_status(items: Seq<MetricConfig>) -> bool {
    exists|i: int| 0 <= i < items.len() && items[i].metric == DisplayMetric::MarketStatus
}

/// The mark appended after the title for a connection state, if any.
pub open spec fn status_suffix(display: DisplayConfig, connection: ConnectionState) -> Option<Seq<char>> {
    let shown = shows_market_status(display.items@);
    match connection {
        ConnectionState::Connecting | ConnectionState::Reconnecting => Some("↻"@),
        ConnectionState::Disconnected => Some("!"@),
        ConnectionState::Delayed => if display.append_delayed_status && !shown {
            Some("·延"@)
        } else {
            None
        },
        ConnectionState::Closed => if display.append_closed_status && !shown {
            Some("·收"@)
        } else {
            None
        },
        _ => None,
    }
}

/// The status marks of a rendered title: after the joined metrics, a space and `↻`
/// while connecting, `!` when disconnected, `·延` for a delayed market and `·收` for a
/// closed one when those marks are enabled and the market-status metric is not shown;
/// nothing else is appended.
pub proof fn lemma_title_status_marks(
    quote: QuoteSnapshot,
    pos: Option<Position>,
    display: DisplayConfig,
    connection: ConnectionState,
)
    ensures
        connection != ConnectionState::AuthenticationFailed ==> (title_outcome(
            quote,
            pos,
            display,
            connection,
        ) matches Ok(t) ==> {
            let joined = join(rendered_parts(display.items@, quote, pos, connection), display.separator@);
            let shown = shows_market_status(display.items@);
            t == match connection {
                ConnectionState::Connecting | ConnectionState::Reconnecting => joined + " ↻"@,
                ConnectionState::Disconnected => joined + " !"@,
                ConnectionState::Delayed => if display.append_delayed_status && !shown {
                    joined + " ·延"@
                } else {
                    joined
                },
                ConnectionState::Closed => if display.append_closed_status && !shown {
                    joined + " ·收"@
                } else {
                    joined
                },
                _ => joined,
            }
        }),
{
    reveal_strlit(" ↻");
    reveal_strlit("↻");
    reveal_strlit(" !");
    reveal_strlit("!");
    reveal_strlit(" ·延");
    reveal_strlit("·延");
    reveal_strlit(" ·收");
    reveal_strlit("·收");
    let joined = join(rendered_parts(display.items@, quote, pos, connection), display.separator@);
    assert(joined + seq![' '] + "↻"@ =~= joined + " ↻"@);
    assert(joined + seq![' '] + "!"@ =~= joined + " !"@);
    assert(joined + seq![' '] + "·延"@ =~= joined + " ·延"@);
    assert(joined + seq![' '] + "·收"@ =~= joined + " ·收"@);
}

/// The joined parts with the status mark, if any, after a space.
pub open spec fn title_text(
    parts: Seq<Seq<char>>,
    display: DisplayConfig,
    connection: ConnectionState,
) -> Seq<char> {
    let joined = join(parts, display.separator@);
    match status_suffix(display, connection) {
        Some(s) => joined + seq![' '] + s,
        None => joined,
    }
}

/// The text of a value, formatted.
fn metric_text_of(value: Decimal, item: &MetricConfig, kind: ValueKind) -> (r: Result<Option<String>, ()>)
    ensures
        r matches Ok(Some(t)) && t@ == formatted(value@, *item, kind),
{
    Ok(Some(format_value(value, item, kind)))
}

/// What one metric contributes to the title.
fn metric_text(
    item: &MetricConfig,
    quote: &QuoteSnapshot,
    position: Option<&Position>,
    pnl: &Option<PositionPnl>,
    connection: &ConnectionState,
) -> (r: Result<Option<String>, ()>)
    requires
        match pnl_values(*quote, opt_position(position)) {
            Some(v) => pnl matches Some(p) && p.market_value@ == v.0 && p.cost_basis@ == v.1
                && p.unrealized_profit@ == v.2 && p.return_percent@ == v.3,
            None => pnl is None,
        },
    ensures
        match metric_outcome(*item, *quote, opt_position(position), *connection) {
            MetricOutcome::Skip => r matches Ok(None),
            MetricOutcome::Overflow => r is Err,
            MetricOutcome::Text(t) => r matches Ok(Some(s)) && s@ == t,
        },
{
    match item.metric {
        DisplayMetric::Symbol => Ok(
            match &quote.symbol {
                Some(v) => Some(apply_label(owned(v.as_str()), item)),
                None => None,
            },
        ),
        DisplayMetric::ShortName => Ok(
            match &quote.short_name {
                Some(v) => Some(apply_label(owned(v.as_str()), item)),
                None => None,
            },
        ),
        DisplayMetric::LastPrice => metric_text_of(quote.last_price, item, ValueKind::Number),
        DisplayMetric::DailyChange => match checked_sub(quote.last_price, quote.previous_close) {
            Some(change) => metric_text_of(change, item, ValueKind::Number),
            None => Err(()),
        },
        DisplayMetric::DailyChangePercent => {
            if quote.previous_close.is_zero() {
                Ok(None)
            } else {
                let change = match checked_sub(quote.last_price, quote.previous_close) {
                    Some(d) => d,
                    None => return Err(()),
                };
                let ratio = match checked_div(change, quote.previous_close) {
                    Some(d) => d,
                    None => return Err(()),
                };
                let percent = match checked_mul(ratio, Decimal::one_hundred()) {
                    Some(d) => d,
                    None => return Err(()),
                };
                metric_text_of(percent, item, ValueKind::Percent)
            }
        },
        DisplayMetric::PreviousClose => metric_text_of(
            quote.previous_close,
            item,
            ValueKind::Number,
        ),
        DisplayMetric::DayHigh => match quote.day_high {
            Some(v) => metric_text_of(v, item, ValueKind::Number),
            None => Ok(None),
        },
        DisplayMetric::DayLow => match quote.day_low {
            Some(v) => metric_text_of(v, item, ValueKind::Number),
            None => Ok(None),
        },
        DisplayMetric::PositionProfit => match pnl {
            Some(p) => metric_text_of(p.unrealized_profit, item, ValueKind::Number),
            None => Ok(None),
        },
        DisplayMetric::PositionReturnPercent => match pnl {
            Some(p) => metric_text_of(p.return_percent, item, ValueKind::Percent),
            None => Ok(None),
        },
        DisplayMetric::MarketValue => match pnl {
            Some(p) => metric_text_of(p.market_value, item, ValueKind::Number),
            None => Ok(None),
        },
        DisplayMetric::AverageCost => match position {
            Some(p) => metric_text_of(p.average_cost, item, ValueKind::Number),
            None => Ok(None),
        },
        DisplayMetric::Quantity => match position {
            Some(p) => metric_text_of(p.quantity, item, ValueKind::Number),
            None => Ok(None),
        },
        DisplayMetric::ProfitPerShare => match position {
            Some(p) => match checked_sub(quote.last_price, p.average_cost) {
                Some(d) => metric_text_of(d, item, ValueKind::Number),
                None => Err(()),
            },
            None => Ok(None),
        },
        DisplayMetric::MarketStatus => Ok(
            Some(apply_label(owned(market_status_text(connection)), item)),
        ),
        DisplayMetric::UpdatedTime => Ok(
            match &quote.updated_time {
                Some(v) => Some(apply_label(owned(v.as_str()), item)),
                None => None,
            },
        ),
    }
}

/// The outcome of rendering a title, as plain values.
pub open spec fn title_outcome(
    quote: QuoteSnapshot,
    pos: Option<Position>,
    display: DisplayConfig,
    connection: ConnectionState,
) -> Result<Seq<char>, DomainError> {
    if display.items@.len() == 0 {
        Err(DomainError::EmptyDisplayMetrics)
    } else if connection == ConnectionState::AuthenticationFailed {
        Ok("行情异常"@)
    } else {
        let parts = rendered_parts(display.items@, quote, pos, connection);
        if pnl_overflows(quote, pos) || some_metric_overflows(display.items@, quote, pos, connection) {
            Err(DomainError::ArithmeticOverflow)
        } else if parts.len() == 0 {
            Err(DomainError::NoRenderableMetrics)
        } else {
            Ok(title_text(parts, display, connection))
        }
    }
}

/// A text result as plain values.
pub open spec fn text_result(r: Result<String, DomainError>) -> Result<Seq<char>, DomainError> {
    match r {
        Ok(t) => Ok(t@),
        Err(e) => Err(e),
    }
}

/// The outcome `render_tray_title` promises, as one value.
pub proof fn lemma_title_outcome(
    quote: QuoteSnapshot,
    pos: Option<Position>,
    display: DisplayConfig,
    connection: ConnectionState,
    r: Result<String, DomainError>,
)
    requires
        display.items@.len() == 0 ==> r matches Err(DomainError::EmptyDisplayMetrics),
        display.items@.len() > 0 && connection == ConnectionState::AuthenticationFailed ==> (
        r matches Ok(t) && t@ == "行情异常"@),
        display.items@.len() > 0 && connection != ConnectionState::AuthenticationFailed ==> {
            let parts = rendered_parts(display.items@, quote, pos, connection);
            if pnl_overflows(quote, pos) || some_metric_overflows(
                display.items@,
                quote,
                pos,
                connection,
            ) {
                r matches Err(DomainError::ArithmeticOverflow)
            } else if parts.len() == 0 {
                r matches Err(DomainError::NoRenderableMetrics)
            } else {
                r matches Ok(t) && t@ == title_text(parts, display, connection)
            }
        },
    ensures
        text_result(r) == title_outcome(quote, pos, display, connection),
{
}

/// Renders the menu-bar title of a quote: the configured metrics that have a value,
/// in order, joined by the separator, then a status mark for the connection.
///
/// No metrics configured is an error; a failed authentication shows "行情异常";
/// metrics without a value (no position, a zero previous close or cost basis) are
/// left out, and when none is left that is an error; a computation that overflows
/// is reported as `ArithmeticOverflow`.
pub fn render_tray_title(
    quote: &QuoteSnapshot,
    position: Option<&Position>,
    display: &DisplayConfig,
    connection: &ConnectionState,
) -> (r: Result<String, DomainError>)
    ensures
        display.items@.len() == 0 ==> r matches Err(DomainError::EmptyDisplayMetrics),
        display.items@.len() > 0 && *connection == ConnectionState::AuthenticationFailed ==> (
        r matches Ok(t) && t@ == "行情异常"@),
        display.items@.len() > 0 && *connection != ConnectionState::AuthenticationFailed ==> {
            let pos = opt_position(position);
            let parts = rendered_parts(display.items@, *quote, pos, *connection);
            if pnl_overflows(*quote, pos) || some_metric_overflows(
                display.items@,
                *quote,
                pos,
                *connection,
            ) {
                r matches Err(DomainError::ArithmeticOverflow)
            } else if parts.len() == 0 {
                r matches Err(DomainError::NoRenderableMetrics)
            } else {
                r matches Ok(t) && t@ == title_text(parts, *display, *connection)
            }
        },
{
    if display.items.len() == 0 {
        return Err(DomainError::EmptyDisplayMetrics);
    }
    if *connection == ConnectionState::AuthenticationFailed {
        return Ok(String::from_str("行情异常"));
    }
    let ghost pos = opt_position(position);
    let pnl: Option<PositionPnl> = match position {
        Some(p) => match calculate_position(quote, p) {
            Ok(v) => Some(v),
            Err(DomainError::ArithmeticOverflow) => return Err(DomainError::ArithmeticOverflow),
            Err(_) => None,
        },
        None => None,
    };
    let mut parts: Vec<String> = Vec::new();
    let mut i: usize = 0;
    while i < display.items.len()
        invariant
            i <= display.items@.len(),
            display.items@.len() > 0,
            *connection != ConnectionState::AuthenticationFailed,
            !pnl_overflows(*quote, pos),
            pos == opt_position(position),
            match pnl_values(*quote, pos) {
                Some(v) => pnl matches Some(p) && p.market_value@ == v.0 && p.cost_basis@ == v.1
                    && p.unrealized_profit@ == v.2 && p.return_percent@ == v.3,
                None => pnl is None,
            },
            texts(parts@) == rendered_parts(display.items@.take(i as int), *quote, pos, *connection),
            forall|j: int|
                0 <= j < i ==> !(metric_outcome(display.items@[j], *quote, pos, *connection) is Overflow),
        decreases display.items.len() - i,
    {
        let item = &display.items[i];
        let outcome = metric_text(item, quote, position, &pnl, connection);
        proof {
            assert(display.items@.take(i + 1).drop_last() =~= display.items@.take(i as int));
            assert(display.items@.take(i + 1).last() == display.items@[i as int]);
        }
        match outcome {
            Err(()) => {
                proof {
                    assert(some_metric_overflows(display.items@, *quote, pos, *connection));
                }
                return Err(DomainError::ArithmeticOverflow);
            },
            Ok(Some(t)) => {
                parts.push(t);
                proof {
                    assert(texts(parts@) =~= rendered_parts(
                        display.items@.take(i + 1),
                        *quote,
                        pos,
                        *connection,
                    ));
                }
            },
            Ok(None) => {},
        }
        i += 1;
    }
    proof {
        assert(display.items@.take(i as int) =~= display.items@);
        assert(!some_metric_overflows(display.items@, *quote, pos, *connection));
    }
    if parts.len() == 0 {
        return Err(DomainError::NoRenderableMetrics);
    }
    let mut title = join_strings(&parts, display.separator.as_str());
    let mut shows_status = false;
    let mut k: usize = 0;
    while k < display.items.len()
        invariant
            k <= display.items@.len(),
            shows_status == exists|j: int|
                0 <= j < k && display.items@[j].metric == DisplayMetric::MarketStatus,
        decreases display.items.len() - k,
    {
        if display.items[k].metric == DisplayMetric::MarketStatus {
            shows_status = true;
        }
        k += 1;
    }
    let suffix: Option<&str> = match connection {
        ConnectionState::Connecting | ConnectionState::Reconnecting => Some("↻"),
        ConnectionState::Disconnected => Some("!"),
        ConnectionState::Delayed => if display.append_delayed_status && !shows_status {
            Some("·延")
        } else {
            None
        },
        ConnectionState::Closed => if display.append_closed_status && !shows_status {
            Some("·收")
        } else {
            None
        },
        _ => None,
    };
    if let Some(s) = suffix {
        title.append(" ");
        title.append(s);
        proof {
            reveal_strlit(" ");
        }
    }
    Ok(title)
}

} // verus!
