//! Alert rules: a metric, a condition, a threshold and the notification to send.
//!
//! A rule fires when its condition is crossed: not met on the previous round and
//! met on this one, so a value resting beyond the threshold does not fire again
//! on every refresh.

use vstd::prelude::*;

use crate::config::{AppConfig, StockConfig};
use crate::decimal::{
    checked_div, checked_mul, checked_sub, decimal_difference, decimal_le, decimal_product,
    decimal_quotient, decimal_rescaled, decimal_text, decimal_to_string, magnitude_limit,
    normalize, normalize_model, pow10, rescale_up, round_dp, round_dp_model, value_le, Decimal,
    DecimalModel,
};
use crate::domain::{calculate_position, position_pnl, ConnectionState, PnlModel};
use crate::provider::ProviderUpdate;
use crate::text::{chars_of, owned, string_of, symbol_key, symbol_key_of, trim, trimmed_of};

verus! {

broadcast use vstd::string::group_string_axioms;

/// The value an alert rule watches.
#[derive(Clone, Copy, Debug, PartialEq, Eq, Structural)]
pub enum AlertMetric {
    /// The last price.
    Price,
    /// Today's change, in percent, signed.
    ChangePercent,
    /// The position's profit, signed.
    PositionProfit,
    /// The position's return, in percent, signed.
    PositionReturnPercent,
}

/// The condition of an alert rule.
#[derive(Clone, Copy, Debug, PartialEq, Eq, Structural)]
pub enum AlertComparator {
    /// At or above the threshold (≥).
    Above,
    /// At or below the threshold (≤).
    Below,
}

/// How often an alert rule may fire.
#[derive(Clone, Copy, Debug, PartialEq, Eq, Structural)]
pub enum AlertRepeat {
    /// At most once per trading day; it re-arms the next day.
    DailyOnce,
    /// Once; then the rule disables itself until turned on again.
    Once,
}

/// An alert rule.
#[derive(Clone, Debug)]
pub struct AlertRule {
    pub id: String,
    pub symbol: String,
    pub metric: AlertMetric,
    pub comparator: AlertComparator,
    pub threshold: Decimal,
    pub repeat: AlertRepeat,
    pub enabled: bool,
    /// Silent: a banner without a sound.
    pub silent: bool,
    /// A custom title or body replaces the default text entirely.
    pub custom_title: Option<String>,
    pub custom_body: Option<String>,
    /// The exchange day (UTC+8 date) of the last firing.
    pub last_triggered_day: Option<String>,
}

/// A notification to send when a rule fires.
#[derive(Clone, Debug, PartialEq, Eq)]
pub struct AlertNotification {
    pub rule_id: String,
    pub title: String,
    pub body: String,
    pub silent: bool,
}

/// Whether a metric is a percentage.
pub open spec fn metric_is_percent(metric: AlertMetric) -> bool {
    metric == AlertMetric::ChangePercent || metric == AlertMetric::PositionReturnPercent
}

/// Whether a metric needs a position.
pub open spec fn metric_needs_position(metric: AlertMetric) -> bool {
    metric == AlertMetric::PositionProfit || metric == AlertMetric::PositionReturnPercent
}

impl AlertMetric {
    /// The metric's name as shown in a notification.
    pub fn label(self) -> (r: &'static str)
        ensures
            r@ == metric_label(self),
    {
        match self {
            AlertMetric::Price => "股价",
            AlertMetric::ChangePercent => "今日涨跌幅",
            AlertMetric::PositionProfit => "持仓收益",
            AlertMetric::PositionReturnPercent => "持仓收益率",
        }
    }

    /// Whether the metric is a percentage.
    pub fn is_percent(self) -> (r: bool)
        ensures
            r == metric_is_percent(self),
    {
        match self {
            AlertMetric::ChangePercent | AlertMetric::PositionReturnPercent => true,
            _ => false,
        }
    }

    /// Whether the metric needs a position.
    pub fn needs_position(self) -> (r: bool)
        ensures
            r == metric_needs_position(self),
    {
        match self {
            AlertMetric::PositionProfit | AlertMetric::PositionReturnPercent => true,
            _ => false,
        }
    }
}

/// The metric's name as shown in a notification.
pub open spec fn metric_label(metric: AlertMetric) -> Seq<char> {
    match metric {
        AlertMetric::Price => "股价"@,
        AlertMetric::ChangePercent => "今日涨跌幅"@,
        AlertMetric::PositionProfit => "持仓收益"@,
        AlertMetric::PositionReturnPercent => "持仓收益率"@,
    }
}

/// Whether `value` meets the condition against `threshold`.
pub open spec fn satisfied_model(c: AlertComparator, value: DecimalModel, threshold: DecimalModel) -> bool {
    match c {
        AlertComparator::Above => value_le(threshold, value),
        AlertComparator::Below => value_le(value, threshold),
    }
}

/// Whether `value` meets the condition against `threshold`.
pub fn satisfied(comparator: AlertComparator, value: Decimal, threshold: Decimal) -> (r: bool)
    ensures
        r == satisfied_model(comparator, value@, threshold@),
{
    match comparator {
        AlertComparator::Above => decimal_le(threshold, value),
        AlertComparator::Below => decimal_le(value, threshold),
    }
}

/// Today's change in percent: (last − previous close) ÷ previous close × 100; none
/// for a zero previous close (or a result out of range).
pub open spec fn change_percent_model(last: DecimalModel, previous: DecimalModel) -> Option<DecimalModel> {
    if previous.0 == 0 {
        None
    } else {
        match decimal_difference(last, previous) {
            Some(change) => match decimal_quotient(change, previous) {
                Some(ratio) => decimal_product(ratio, (100nat, 0nat, false)),
                None => None,
            },
            None => None,
        }
    }
}

/// The current value of a rule's metric; none when it cannot be computed (no position,
/// a zero previous close or cost basis, or a result out of range).
pub open spec fn metric_value_model(metric: AlertMetric, stock: StockConfig, update: ProviderUpdate) -> Option<DecimalModel> {
    let quote = update.quote;
    match metric {
        AlertMetric::Price => Some(quote.last_price@),
        AlertMetric::ChangePercent => change_percent_model(
            quote.last_price@,
            quote.previous_close@,
        ),
        AlertMetric::PositionProfit => match stock.position {
            Some(p) => match position_pnl(quote, p) {
                PnlModel::Computed { profit, .. } => Some(profit),
                _ => None,
            },
            None => None,
        },
        AlertMetric::PositionReturnPercent => match stock.position {
            Some(p) => match position_pnl(quote, p) {
                PnlModel::Computed { return_percent, .. } => Some(return_percent),
                _ => None,
            },
            None => None,
        },
    }
}

/// The current value of a rule's metric.
pub fn metric_value(metric: AlertMetric, stock: &StockConfig, update: &ProviderUpdate) -> (r: Option<Decimal>)
    ensures
        crate::decimal::opt_model(r) == metric_value_model(metric, *stock, *update),
{
    match metric {
        AlertMetric::Price => Some(update.quote.last_price),
        AlertMetric::ChangePercent => {
            if update.quote.previous_close.is_zero() {
                None
            } else {
                let change = match checked_sub(
                    update.quote.last_price,
                    update.quote.previous_close,
                ) {
                    Some(d) => d,
                    None => return None,
                };
                let ratio = match checked_div(change, update.quote.previous_close) {
                    Some(d) => d,
                    None => return None,
                };
                checked_mul(ratio, Decimal::one_hundred())
            }
        },
        AlertMetric::PositionProfit => match &stock.position {
            Some(p) => match calculate_position(&update.quote, p) {
                Ok(pnl) => Some(pnl.unrealized_profit),
                Err(_) => None,
            },
            None => None,
        },
        AlertMetric::PositionReturnPercent => match &stock.position {
            Some(p) => match calculate_position(&update.quote, p) {
                Ok(pnl) => Some(pnl.return_percent),
                Err(_) => None,
            },
            None => None,
        },
    }
}

/// The values of the position metrics of a stock with a position at a quote: the
/// profit is market value (last price × quantity) minus cost basis (average cost ×
/// quantity), and the return percent is that profit divided by the cost basis, times
/// 100, each step as `rust_decimal` computes it. Both exist exactly when the cost
/// basis is not zero and every step fits; without a position neither exists.
pub proof fn lemma_position_metric_values(stock: StockConfig, update: ProviderUpdate)
    ensures
        stock.position is None ==> metric_value_model(
            AlertMetric::PositionProfit,
            stock,
            update,
        ) is None && metric_value_model(AlertMetric::PositionReturnPercent, stock, update) is None,
        stock.position matches Some(p) ==> {
            let last = update.quote.last_price@;
            let hundred = (100nat, 0nat, false);
            let profit_value = metric_value_model(AlertMetric::PositionProfit, stock, update);
            let percent_value = metric_value_model(
                AlertMetric::PositionReturnPercent,
                stock,
                update,
            );
            let basis = decimal_product(p.average_cost@, p.quantity@);
            let market = decimal_product(last, p.quantity@);
            let profit = decimal_difference(market->0, basis->0);
            let ratio = decimal_quotient(profit->0, basis->0);
            let percent = decimal_product(ratio->0, hundred);
            if basis is Some && (basis->0).0 != 0 && market is Some && profit is Some && ratio is Some
                && percent is Some {
                &&& profit_value == profit
                &&& percent_value == percent
            } else {
                profit_value is None && percent_value is None
            }
        },
{
}

/// `d` with its scale raised to `scale`, as `rust_decimal` pads it.
pub open spec fn rescaled_model(d: DecimalModel, scale: nat) -> DecimalModel {
    if d.0 == 0 {
        (0nat, scale, d.2)
    } else if d.0 * pow10((scale - d.1) as nat) < magnitude_limit() {
        ((d.0 * pow10((scale - d.1) as nat)) as nat, scale, d.2)
    } else {
        decimal_rescaled(d, scale)
    }
}

/// A metric value in a notification: rounded to two decimals, always shown with two,
/// with `%` for percentages.
pub open spec fn metric_text_model(metric: AlertMetric, value: DecimalModel) -> Seq<char> {
    let text = decimal_text(rescaled_model(round_dp_model(value, 2), 2));
    if metric_is_percent(metric) {
        text + "%"@
    } else {
        text
    }
}

/// A metric value as shown in a notification.
pub fn format_metric(metric: AlertMetric, value: Decimal) -> (r: String)
    ensures
        r@ == metric_text_model(metric, value@),
{
    let rounded = round_dp(value, 2);
    proof {
        use_type_invariant(rounded);
    }
    let padded = rescale_up(rounded, 2);
    let mut text = decimal_to_string(padded);
    if metric.is_percent() {
        text.append("%");
    }
    text
}

/// The name shown for a stock: its trimmed short name, or its trimmed symbol when the
/// name is blank.
pub open spec fn stock_display_name(stock: StockConfig) -> Seq<char> {
    if trim(stock.short_name@).len() == 0 {
        trim(stock.symbol@)
    } else {
        trim(stock.short_name@)
    }
}

/// The condition's sign.
pub open spec fn comparator_text(c: AlertComparator) -> Seq<char> {
    match c {
        AlertComparator::Above => "≥"@,
        AlertComparator::Below => "≤"@,
    }
}

/// The default title: the stock's name and the value.
pub open spec fn default_title_model(rule: AlertRule, stock: StockConfig, value: DecimalModel) -> Seq<char> {
    stock_display_name(stock) + " "@ + metric_text_model(rule.metric, value)
}

/// The default body: the metric, its value, the condition and the threshold.
pub open spec fn default_body_model(rule: AlertRule, value: DecimalModel) -> Seq<char> {
    metric_label(rule.metric) + " 当前 "@ + metric_text_model(rule.metric, value) + "，已"@
        + comparator_text(rule.comparator) + " "@ + metric_text_model(
        rule.metric,
        rule.threshold@,
    )
}

/// A custom text when it is non-blank (trimmed), otherwise the default.
pub open spec fn custom_or(custom: Option<String>, default: Seq<char>) -> Seq<char> {
    match custom {
        Some(t) => if trim(t@).len() > 0 {
            trim(t@)
        } else {
            default
        },
        None => default,
    }
}

/// Whether `n` is the notification of `rule` for `value`.
pub open spec fn is_notification(n: AlertNotification, rule: AlertRule, stock: StockConfig, value: DecimalModel) -> bool {
    &&& n.rule_id@ == rule.id@
    &&& n.title@ == custom_or(rule.custom_title, default_title_model(rule, stock, value))
    &&& n.body@ == custom_or(rule.custom_body, default_body_model(rule, value))
    &&& n.silent == rule.silent
}

/// The default title and body of a notification.
pub fn default_notification(rule: &AlertRule, stock: &StockConfig, value: Decimal) -> (r: (String, String))
    ensures
        r.0@ == default_title_model(*rule, *stock, value@),
        r.1@ == default_body_model(*rule, value@),
{
    let short = trimmed_of(stock.short_name.as_str());
    let name = if short.len() == 0 {
        string_of(&trimmed_of(stock.symbol.as_str()))
    } else {
        string_of(&short)
    };
    let value_text = format_metric(rule.metric, value);
    let threshold_text = format_metric(rule.metric, rule.threshold);
    let mut title = name;
    title.append(" ");
    title.append(value_text.as_str());
    let mut body = String::from_str(rule.metric.label());
    body.append(" 当前 ");
    body.append(value_text.as_str());
    body.append("，已");
    body.append(
        match rule.comparator {
            AlertComparator::Above => "≥",
            AlertComparator::Below => "≤",
        },
    );
    body.append(" ");
    body.append(threshold_text.as_str());
    (title, body)
}

/// The custom text when it is non-blank, trimmed; otherwise the default.
fn custom_or_default(custom: &Option<String>, default: String) -> (r: String)
    ensures
        r@ == custom_or(*custom, default@),
{
    match custom {
        Some(t) => {
            let trimmed = trimmed_of(t.as_str());
            if trimmed.len() > 0 {
                string_of(&trimmed)
            } else {
                default
            }
        },
        None => default,
    }
}

/// The notification of a rule for a value; a non-blank custom title or body replaces
/// the default text entirely. Real firings and test sends both use it.
pub fn build_notification(rule: &AlertRule, stock: &StockConfig, value: Decimal) -> (r: AlertNotification)
    ensures
        is_notification(r, *rule, *stock, value@),
{
    let (default_title, default_body) = default_notification(rule, stock, value);
    let title = custom_or_default(&rule.custom_title, default_title);
    let body = custom_or_default(&rule.custom_body, default_body);
    AlertNotification { rule_id: owned(rule.id.as_str()), title, body, silent: rule.silent }
}

/// Whether alerts are evaluated in a market state: only while trading, live or delayed.
pub open spec fn evaluates_in(c: ConnectionState) -> bool {
    c == ConnectionState::Live || c == ConnectionState::Delayed
}

/// Whether the condition was crossed: a remembered value that did not meet it, and a
/// current value that does.
pub open spec fn crossed(
    comparator: AlertComparator,
    threshold: DecimalModel,
    previous: Option<DecimalModel>,
    current: DecimalModel,
) -> bool {
    match previous {
        Some(p) => !satisfied_model(comparator, p, threshold) && satisfied_model(
            comparator,
            current,
            threshold,
        ),
        None => false,
    }
}

/// Whether a once-a-day rule has already fired today.
pub open spec fn fired_today(rule: AlertRule, today: Seq<char>) -> bool {
    rule.repeat == AlertRepeat::DailyOnce && (rule.last_triggered_day matches Some(d) && d@
        == today)
}

/// The optional model of an optional decimal.
pub open spec fn opt_value(d: Option<Decimal>) -> Option<DecimalModel> {
    match d {
        Some(x) => Some(x@),
        None => None,
    }
}

/// Evaluates one rule for this round: returns the metric's current value (to be
/// remembered) and the notification, if the rule fires.
///
/// A disabled rule, a market that is not trading, or a metric without a value gives
/// neither. The rule fires when the condition was crossed since the remembered value
/// (a first evaluation only remembers) and a once-a-day rule has not fired today.
pub fn evaluate_rule(
    rule: &AlertRule,
    stock: &StockConfig,
    update: &ProviderUpdate,
    previous: Option<Decimal>,
    today: &str,
) -> (r: (Option<Decimal>, Option<AlertNotification>))
    ensures
        !rule.enabled || !evaluates_in(update.connection) ==> r.0 is None && r.1 is None,
        rule.enabled && evaluates_in(update.connection) ==> {
            match metric_value_model(rule.metric, *stock, *update) {
                None => r.0 is None && r.1 is None,
                Some(current) => {
                    &&& opt_value(r.0) == Some(current)
                    &&& (r.1 is Some <==> (crossed(
                        rule.comparator,
                        rule.threshold@,
                        opt_value(previous),
                        current,
                    ) && !fired_today(*rule, today@)))
                    &&& r.1 matches Some(n) ==> is_notification(n, *rule, *stock, current)
                },
            }
        },
{
    if !rule.enabled || !(update.connection == ConnectionState::Live || update.connection
        == ConnectionState::Delayed) {
        return (None, None);
    }
    let current = match metric_value(rule.metric, stock, update) {
        Some(v) => v,
        None => return (None, None),
    };
    let was_crossed = match previous {
        Some(p) => !satisfied(rule.comparator, p, rule.threshold) && satisfied(
            rule.comparator,
            current,
            rule.threshold,
        ),
        None => false,
    };
    let today_chars = chars_of(today);
    let already_fired_today = match rule.repeat {
        AlertRepeat::DailyOnce => match &rule.last_triggered_day {
            Some(d) => crate::text::same_chars(&chars_of(d.as_str()), &today_chars),
            None => false,
        },
        AlertRepeat::Once => false,
    };
    if !was_crossed || already_fired_today {
        return (Some(current), None);
    }
    (Some(current), Some(build_notification(rule, stock, current)))
}

/// After a firing: a once-a-day rule records the day; a one-shot rule also disables
/// itself.
pub fn mark_triggered(rule: &mut AlertRule, today: &str)
    ensures
        opt_day(final(rule).last_triggered_day) == Some(today@),
        final(rule).enabled == (old(rule).enabled && old(rule).repeat == AlertRepeat::DailyOnce),
        final(rule).id == old(rule).id,
        final(rule).symbol == old(rule).symbol,
        final(rule).metric == old(rule).metric,
        final(rule).comparator == old(rule).comparator,
        final(rule).threshold == old(rule).threshold,
        final(rule).repeat == old(rule).repeat,
        final(rule).silent == old(rule).silent,
        final(rule).custom_title == old(rule).custom_title,
        final(rule).custom_body == old(rule).custom_body,
{
    match rule.repeat {
        AlertRepeat::DailyOnce => {
            rule.last_triggered_day = Some(owned(today));
        },
        AlertRepeat::Once => {
            rule.enabled = false;
            rule.last_triggered_day = Some(owned(today));
        },
    }
}

/// The optional text of an optional day.
pub open spec fn opt_day(d: Option<String>) -> Option<Seq<char>> {
    match d {
        Some(s) => Some(s@),
        None => None,
    }
}

/// Once a rule has fired and been marked, evaluating it again on the same day never
/// fires: a once-a-day rule has recorded the day and a one-shot rule is disabled.
pub proof fn lemma_marked_rule_stays_quiet_that_day(
    before: AlertRule,
    after: AlertRule,
    today: Seq<char>,
)
    requires
        opt_day(after.last_triggered_day) == Some(today),
        after.enabled == (before.enabled && before.repeat == AlertRepeat::DailyOnce),
        after.repeat == before.repeat,
    ensures
        !after.enabled || fired_today(after, today),
{
}


/// What the crossing detection remembers of a rule: the fingerprint it was armed
/// with and the metric's value on the last round.
#[derive(Debug)]
pub struct AlertMemoryEntry {
    pub rule_id: String,
    pub fingerprint: String,
    pub value: Decimal,
}

/// The remembered fingerprint and value of a rule.
pub type MemoryData = (Seq<char>, DecimalModel);

/// The data of one entry.
pub open spec fn entry_data(e: AlertMemoryEntry) -> MemoryData {
    (e.fingerprint@, e.value@)
}

/// The map of a list of entries: rule id to data, a later entry for an id replacing
/// an earlier one.
pub open spec fn memory_map(es: Seq<AlertMemoryEntry>) -> Map<Seq<char>, MemoryData>
    decreases es.len(),
{
    if es.len() == 0 {
        Map::empty()
    } else {
        memory_map(es.drop_last()).insert(es.last().rule_id@, entry_data(es.last()))
    }
}

/// The entries whose id is not `k`, in order.
pub open spec fn entries_without(es: Seq<AlertMemoryEntry>, k: Seq<char>) -> Seq<AlertMemoryEntry>
    decreases es.len(),
{
    if es.len() == 0 {
        Seq::empty()
    } else {
        let w = entries_without(es.drop_last(), k);
        if es.last().rule_id@ == k {
            w
        } else {
            w.push(es.last())
        }
    }
}

/// The entries whose id is in `keep`, in order.
pub open spec fn entries_within(es: Seq<AlertMemoryEntry>, keep: Set<Seq<char>>) -> Seq<AlertMemoryEntry>
    decreases es.len(),
{
    if es.len() == 0 {
        Seq::empty()
    } else {
        let w = entries_within(es.drop_last(), keep);
        if keep.contains(es.last().rule_id@) {
            w.push(es.last())
        } else {
            w
        }
    }
}

/// Dropping the entries of one id removes that id from the map.
proof fn lemma_without(es: Seq<AlertMemoryEntry>, k: Seq<char>)
    ensures
        memory_map(entries_without(es, k)) == memory_map(es).remove(k),
    decreases es.len(),
{
    if es.len() > 0 {
        lemma_without(es.drop_last(), k);
        let w = entries_without(es.drop_last(), k);
        if es.last().rule_id@ != k {
            assert(w.push(es.last()).drop_last() =~= w);
        }
        assert(memory_map(entries_without(es, k)) =~= memory_map(es).remove(k));
    } else {
        assert(memory_map(es).remove(k) =~= Map::empty());
    }
}

/// Keeping the entries of some ids restricts the map to them.
proof fn lemma_within(es: Seq<AlertMemoryEntry>, keep: Set<Seq<char>>)
    ensures
        memory_map(entries_within(es, keep)) == memory_map(es).restrict(keep),
    decreases es.len(),
{
    if es.len() > 0 {
        lemma_within(es.drop_last(), keep);
        let w = entries_within(es.drop_last(), keep);
        if keep.contains(es.last().rule_id@) {
            assert(w.push(es.last()).drop_last() =~= w);
        }
        assert(memory_map(entries_within(es, keep)) =~= memory_map(es).restrict(keep));
    } else {
        assert(memory_map(es).restrict(keep) =~= Map::empty());
    }
}

/// The last entry for an id holds its data; an id without entries is absent.
proof fn lemma_last_entry(es: Seq<AlertMemoryEntry>, k: Seq<char>, i: int)
    requires
        -1 <= i < es.len(),
        i >= 0 ==> es[i].rule_id@ == k,
        forall|j: int| i < j < es.len() ==> (#[trigger] es[j]).rule_id@ != k,
    ensures
        i >= 0 ==> memory_map(es).contains_key(k) && memory_map(es)[k] == entry_data(es[i]),
        i < 0 ==> !memory_map(es).contains_key(k),
    decreases es.len(),
{
    if es.len() > 0 {
        if i == es.len() - 1 {
        } else {
            assert forall|j: int| i < j < es.drop_last().len() implies (
            #[trigger] es.drop_last()[j]).rule_id@ != k by {
                assert(es.drop_last()[j] == es[j]);
            }
            assert(es.last() == es[es.len() - 1]);
            lemma_last_entry(es.drop_last(), k, i);
            if i >= 0 {
                assert(es.drop_last()[i] == es[i]);
            }
        }
    }
}

/// The crossing memory of the alert rules: for each rule id, the fingerprint the
/// rule was armed with and the metric's value on the last round.
#[derive(Debug)]
pub struct AlertMemory {
    entries: Vec<AlertMemoryEntry>,
}

impl View for AlertMemory {
    type V = Map<Seq<char>, MemoryData>;

    closed spec fn view(&self) -> Map<Seq<char>, MemoryData> {
        memory_map(self.entries@)
    }
}

/// The value remembered for a rule armed with `fingerprint`, if any: a value
/// remembered under another fingerprint does not count.
pub open spec fn remembered(m: Map<Seq<char>, MemoryData>, id: Seq<char>, fingerprint: Seq<char>) -> Option<DecimalModel> {
    if m.contains_key(id) && m[id].0 == fingerprint {
        Some(m[id].1)
    } else {
        None
    }
}

/// The set of ids of a list of rules.
pub open spec fn rule_ids(rules: Seq<AlertRule>) -> Set<Seq<char>> {
    Set::new(|k: Seq<char>| exists|i: int| 0 <= i < rules.len() && (#[trigger] rules[i]).id@ == k)
}

impl AlertMemory {
    /// An empty memory.
    pub fn new() -> (r: AlertMemory)
        ensures
            r@ == Map::<Seq<char>, MemoryData>::empty(),
    {
        AlertMemory { entries: Vec::new() }
    }

    /// The value remembered for rule `id` armed with `fingerprint`.
    pub fn previous_value(&self, id: &str, fingerprint: &str) -> (r: Option<Decimal>)
        ensures
            crate::decimal::opt_model(r) == remembered(self@, id@, fingerprint@),
    {
        let key = chars_of(id);
        let mut i: usize = self.entries.len();
        while i > 0
            invariant
                i <= self.entries@.len(),
                key@ == id@,
                forall|j: int| i <= j < self.entries@.len() ==> (#[trigger] self.entries@[j]).rule_id@ != id@,
            decreases i,
        {
            let e = &self.entries[i - 1];
            if crate::text::same_chars(&chars_of(e.rule_id.as_str()), &key) {
                proof {
                    lemma_last_entry(self.entries@, id@, i - 1);
                }
                if crate::text::same_chars(
                    &chars_of(e.fingerprint.as_str()),
                    &chars_of(fingerprint),
                ) {
                    return Some(e.value);
                } else {
                    return None;
                }
            }
            i -= 1;
        }
        proof {
            lemma_last_entry(self.entries@, id@, -1);
        }
        None
    }

    /// Remembers `value` for rule `id` armed with `fingerprint`.
    pub fn remember(&mut self, id: &str, fingerprint: String, value: Decimal)
        ensures
            final(self)@ == old(self)@.insert(id@, (fingerprint@, value@)),
    {
        let key = chars_of(id);
        let mut kept: Vec<AlertMemoryEntry> = Vec::new();
        let mut old_entries: Vec<AlertMemoryEntry> = Vec::new();
        std::mem::swap(&mut old_entries, &mut self.entries);
        let ghost es = old_entries@;
        assert(memory_map(es) == old(self)@);
        let mut i: usize = 0;
        let n = old_entries.len();
        let mut rest = old_entries;
        assert(es.subrange(0, n as int) =~= es);
        while i < n
            invariant
                i <= n == es.len(),
                key@ == id@,
                rest@ == es.subrange(i as int, n as int),
                kept@ == entries_without(es.take(i as int), id@),
            decreases n - i,
        {
            let e = rest.remove(0);
            assert(e == es[i as int]);
            assert(rest@ =~= es.subrange(i + 1, n as int));
            assert(es.take(i + 1).drop_last() =~= es.take(i as int));
            assert(es.take(i + 1).last() == es[i as int]);
            if !crate::text::same_chars(&chars_of(e.rule_id.as_str()), &key) {
                kept.push(e);
            }
            i += 1;
        }
        assert(es.take(n as int) =~= es);
        proof {
            lemma_without(es, id@);
        }
        let entry = AlertMemoryEntry { rule_id: owned(id), fingerprint, value };
        kept.push(entry);
        self.entries = kept;
        assert(self.entries@.drop_last() =~= entries_without(es, id@));
        assert(final(self)@ =~= old(self)@.insert(id@, (fingerprint@, value@)));
    }
}


impl AlertMemory {
    /// Forgets the rules that are no longer configured.
    pub fn retain_rules(&mut self, rules: &Vec<AlertRule>)
        ensures
            final(self)@ == old(self)@.restrict(rule_ids(rules@)),
    {
        let mut kept: Vec<AlertMemoryEntry> = Vec::new();
        let mut rest: Vec<AlertMemoryEntry> = Vec::new();
        std::mem::swap(&mut rest, &mut self.entries);
        let ghost es = rest@;
        let ghost keep = rule_ids(rules@);
        let n = rest.len();
        let mut i: usize = 0;
        assert(es.subrange(0, n as int) =~= es);
        while i < n
            invariant
                i <= n == es.len(),
                keep == rule_ids(rules@),
                rest@ == es.subrange(i as int, n as int),
                kept@ == entries_within(es.take(i as int), keep),
            decreases n - i,
        {
            let e = rest.remove(0);
            assert(e == es[i as int]);
            assert(rest@ =~= es.subrange(i + 1, n as int));
            assert(es.take(i + 1).drop_last() =~= es.take(i as int));
            assert(es.take(i + 1).last() == es[i as int]);
            if has_rule_id(rules, e.rule_id.as_str()) {
                kept.push(e);
            }
            i += 1;
        }
        assert(es.take(n as int) =~= es);
        proof {
            lemma_within(es, keep);
        }
        self.entries = kept;
    }
}

/// Whether some rule has the id `id`.
fn has_rule_id(rules: &Vec<AlertRule>, id: &str) -> (r: bool)
    ensures
        r == rule_ids(rules@).contains(id@),
{
    let key = chars_of(id);
    let mut i: usize = 0;
    while i < rules.len()
        invariant
            i <= rules@.len(),
            key@ == id@,
            forall|j: int| 0 <= j < i ==> (#[trigger] rules@[j]).id@ != id@,
        decreases rules.len() - i,
    {
        if crate::text::same_chars(&chars_of(rules[i].id.as_str()), &key) {
            assert(rules@[i as int].id@ == id@);
            return true;
        }
        i += 1;
    }
    false
}

/// The name of a metric in a fingerprint.
pub open spec fn metric_name(m: AlertMetric) -> Seq<char> {
    match m {
        AlertMetric::Price => "Price"@,
        AlertMetric::ChangePercent => "ChangePercent"@,
        AlertMetric::PositionProfit => "PositionProfit"@,
        AlertMetric::PositionReturnPercent => "PositionReturnPercent"@,
    }
}

/// The name of a condition in a fingerprint.
pub open spec fn comparator_name(c: AlertComparator) -> Seq<char> {
    match c {
        AlertComparator::Above => "Above"@,
        AlertComparator::Below => "Below"@,
    }
}

/// The semantic fingerprint of a rule: its symbol key, metric, condition and the
/// normalized threshold, separated by `|`. Editing any of them makes a different rule;
/// its text, silence and repetition do not count.
pub open spec fn fingerprint_text(rule: AlertRule) -> Seq<char> {
    symbol_key(rule.symbol@) + "|"@ + metric_name(rule.metric) + "|"@ + comparator_name(
        rule.comparator,
    ) + "|"@ + decimal_text(normalize_model(rule.threshold@))
}

/// The semantic fingerprint of a rule.
pub fn rule_fingerprint(rule: &AlertRule) -> (r: String)
    ensures
        r@ == fingerprint_text(*rule),
{
    let key = symbol_key_of(rule.symbol.as_str());
    let mut out = string_of(&key);
    out.append("|");
    out.append(
        match rule.metric {
            AlertMetric::Price => "Price",
            AlertMetric::ChangePercent => "ChangePercent",
            AlertMetric::PositionProfit => "PositionProfit",
            AlertMetric::PositionReturnPercent => "PositionReturnPercent",
        },
    );
    out.append("|");
    out.append(
        match rule.comparator {
            AlertComparator::Above => "Above",
            AlertComparator::Below => "Below",
        },
    );
    out.append("|");
    let threshold = decimal_to_string(normalize(rule.threshold));
    out.append(threshold.as_str());
    out
}

/// The metric value a rule evaluates to this round: none for a disabled rule, a market
/// that is not trading, or a metric without a value.
pub open spec fn evaluated_value(rule: AlertRule, stock: StockConfig, update: ProviderUpdate) -> Option<DecimalModel> {
    if rule.enabled && evaluates_in(update.connection) {
        metric_value_model(rule.metric, stock, update)
    } else {
        None
    }
}

/// Whether a rule fires this round given the remembered value.
pub open spec fn fires(
    rule: AlertRule,
    stock: StockConfig,
    update: ProviderUpdate,
    previous: Option<DecimalModel>,
    today: Seq<char>,
) -> bool {
    match evaluated_value(rule, stock, update) {
        Some(current) => crossed(rule.comparator, rule.threshold@, previous, current)
            && !fired_today(rule, today),
        None => false,
    }
}

/// `k` is the first stock whose trimmed symbol is the trimmed `symbol`.
pub open spec fn is_first_stock_for(stocks: Seq<StockConfig>, symbol: Seq<char>, k: int) -> bool {
    0 <= k < stocks.len() && trim(stocks[k].symbol@) == trim(symbol) && forall|j: int|
        0 <= j < k ==> trim(stocks[j].symbol@) != trim(symbol)
}

/// The first stock whose trimmed symbol is the trimmed `symbol`, if any.
pub open spec fn stock_for(stocks: Seq<StockConfig>, symbol: Seq<char>) -> Option<int> {
    if exists|k: int| is_first_stock_for(stocks, symbol, k) {
        Some(choose|k: int| is_first_stock_for(stocks, symbol, k))
    } else {
        None
    }
}

/// The first stock whose trimmed symbol is the trimmed `symbol`.
pub fn find_stock_for(stocks: &Vec<StockConfig>, symbol: &str) -> (r: Option<usize>)
    ensures
        r matches Some(k) ==> stock_for(stocks@, symbol@) == Some(k as int),
        r is None ==> stock_for(stocks@, symbol@) is None,
{
    let wanted = trimmed_of(symbol);
    let mut k: usize = 0;
    while k < stocks.len()
        invariant
            k <= stocks@.len(),
            wanted@ == trim(symbol@),
            forall|j: int| 0 <= j < k ==> trim(stocks@[j].symbol@) != trim(symbol@),
        decreases stocks.len() - k,
    {
        if crate::text::same_chars(&trimmed_of(stocks[k].symbol.as_str()), &wanted) {
            proof {
                assert(is_first_stock_for(stocks@, symbol@, k as int));
                let c = choose|m: int| is_first_stock_for(stocks@, symbol@, m);
                if c < k {
                    assert(trim(stocks@[c].symbol@) != trim(symbol@));
                } else if c > k {
                    assert(trim(stocks@[k as int].symbol@) != trim(symbol@));
                }
            }
            return Some(k);
        }
        k += 1;
    }
    proof {
        if exists|m: int| is_first_stock_for(stocks@, symbol@, m) {
            let c = choose|m: int| is_first_stock_for(stocks@, symbol@, m);
            assert(trim(stocks@[c].symbol@) == trim(symbol@));
        }
    }
    None
}

/// The quote of the stock at index `k` in quotes aligned with the stocks.
pub open spec fn update_at(updates: Seq<Option<ProviderUpdate>>, k: int) -> Option<ProviderUpdate> {
    if 0 <= k < updates.len() {
        updates[k]
    } else {
        None
    }
}

/// The memory and the firings (rule index, stock index, value) of a round so far.
pub type RoundModel = (Map<Seq<char>, MemoryData>, Seq<(int, int, DecimalModel)>);

/// One rule's part of a round: a rule whose stock or quote is missing is skipped; else
/// it is evaluated against the value remembered under its current fingerprint, a
/// computed value is remembered (a missing one keeps the old memory), and a firing is
/// recorded.
pub open spec fn round_step(
    stocks: Seq<StockConfig>,
    updates: Seq<Option<ProviderUpdate>>,
    state: RoundModel,
    i: int,
    rule: AlertRule,
    today: Seq<char>,
) -> RoundModel {
    match stock_for(stocks, rule.symbol@) {
        None => state,
        Some(si) => match update_at(updates, si) {
            None => state,
            Some(u) => {
                let fp = fingerprint_text(rule);
                let previous = remembered(state.0, rule.id@, fp);
                let value = evaluated_value(rule, stocks[si], u);
                let memory = match value {
                    Some(v) => state.0.insert(rule.id@, (fp, v)),
                    None => state.0,
                };
                let fired = if fires(rule, stocks[si], u, previous, today) {
                    state.1.push((i, si, value->0))
                } else {
                    state.1
                };
                (memory, fired)
            },
        },
    }
}

/// A round over the rules, in order, from the memory `memory`.
pub open spec fn round_model(
    stocks: Seq<StockConfig>,
    updates: Seq<Option<ProviderUpdate>>,
    rules: Seq<AlertRule>,
    memory: Map<Seq<char>, MemoryData>,
    today: Seq<char>,
) -> RoundModel
    decreases rules.len(),
{
    if rules.len() == 0 {
        (memory, Seq::empty())
    } else {
        round_step(
            stocks,
            updates,
            round_model(stocks, updates, rules.drop_last(), memory, today),
            rules.len() - 1,
            rules.last(),
            today,
        )
    }
}

/// The entry remembered under `id`, if any.
pub open spec fn memory_entry(m: Map<Seq<char>, MemoryData>, id: Seq<char>) -> Option<MemoryData> {
    if m.contains_key(id) {
        Some(m[id])
    } else {
        None
    }
}

/// Whether no two rules share an id.
pub open spec fn distinct_rule_ids(rules: Seq<AlertRule>) -> bool {
    forall|a: int, b: int|
        0 <= a < rules.len() && 0 <= b < rules.len() && a != b ==> (#[trigger] rules[a]).id@
            != (#[trigger] rules[b]).id@
}

/// The entry of a rule after its own evaluation, from the entry `before` under its id:
/// the current fingerprint and value when its stock has a quote and the metric a
/// value, `before` otherwise.
pub open spec fn entry_after_rule(
    stocks: Seq<StockConfig>,
    updates: Seq<Option<ProviderUpdate>>,
    rule: AlertRule,
    before: Option<MemoryData>,
) -> Option<MemoryData> {
    match stock_for(stocks, rule.symbol@) {
        Some(si) => match update_at(updates, si) {
            Some(u) => match evaluated_value(rule, stocks[si], u) {
                Some(v) => Some((fingerprint_text(rule), v)),
                None => before,
            },
            None => before,
        },
        None => before,
    }
}

/// Whether a rule fires against the memory `memory`.
pub open spec fn rule_fires_from(
    stocks: Seq<StockConfig>,
    updates: Seq<Option<ProviderUpdate>>,
    rule: AlertRule,
    memory: Map<Seq<char>, MemoryData>,
    today: Seq<char>,
) -> bool {
    match stock_for(stocks, rule.symbol@) {
        Some(si) => match update_at(updates, si) {
            Some(u) => fires(
                rule,
                stocks[si],
                u,
                remembered(memory, rule.id@, fingerprint_text(rule)),
                today,
            ),
            None => false,
        },
        None => false,
    }
}

/// Rules with other ids leave the entry of `id` alone.
proof fn lemma_round_keeps_other_ids(
    stocks: Seq<StockConfig>,
    updates: Seq<Option<ProviderUpdate>>,
    rules: Seq<AlertRule>,
    memory: Map<Seq<char>, MemoryData>,
    today: Seq<char>,
    id: Seq<char>,
)
    requires
        forall|j: int| 0 <= j < rules.len() ==> (#[trigger] rules[j]).id@ != id,
    ensures
        memory_entry(round_model(stocks, updates, rules, memory, today).0, id) == memory_entry(
            memory,
            id,
        ),
    decreases rules.len(),
{
    if rules.len() > 0 {
        assert forall|j: int| 0 <= j < rules.drop_last().len() implies (
        #[trigger] rules.drop_last()[j]).id@ != id by {
            assert(rules.drop_last()[j] == rules[j]);
        }
        assert(rules.last() == rules[rules.len() - 1]);
        lemma_round_keeps_other_ids(stocks, updates, rules.drop_last(), memory, today, id);
    }
}

/// The firings of a round name rules of the round.
proof fn lemma_round_firings_in_range(
    stocks: Seq<StockConfig>,
    updates: Seq<Option<ProviderUpdate>>,
    rules: Seq<AlertRule>,
    memory: Map<Seq<char>, MemoryData>,
    today: Seq<char>,
)
    ensures
        forall|k: int|
            0 <= k < round_model(stocks, updates, rules, memory, today).1.len() ==> 0 <= (
            #[trigger] round_model(stocks, updates, rules, memory, today).1[k]).0 < rules.len(),
    decreases rules.len(),
{
    if rules.len() > 0 {
        lemma_round_firings_in_range(stocks, updates, rules.drop_last(), memory, today);
        let prev = round_model(stocks, updates, rules.drop_last(), memory, today);
        let all = round_model(stocks, updates, rules, memory, today);
        assert forall|k: int| 0 <= k < all.1.len() implies 0 <= (#[trigger] all.1[k]).0
            < rules.len() by {
            if k < prev.1.len() {
                assert(all.1[k] == prev.1[k]);
            }
        }
    }
}

/// The entry of each rule after a round, and whether it fired, with distinct ids.
proof fn lemma_round_entry(
    stocks: Seq<StockConfig>,
    updates: Seq<Option<ProviderUpdate>>,
    rules: Seq<AlertRule>,
    memory: Map<Seq<char>, MemoryData>,
    today: Seq<char>,
    i: int,
)
    requires
        0 <= i < rules.len(),
        distinct_rule_ids(rules),
    ensures
        memory_entry(round_model(stocks, updates, rules, memory, today).0, rules[i].id@)
            == entry_after_rule(stocks, updates, rules[i], memory_entry(memory, rules[i].id@)),
        (exists|k: int|
            0 <= k < round_model(stocks, updates, rules, memory, today).1.len() && (
            #[trigger] round_model(stocks, updates, rules, memory, today).1[k]).0 == i)
            <==> rule_fires_from(stocks, updates, rules[i], memory, today),
    decreases rules.len(),
{
    let n = rules.len() - 1;
    let front = rules.drop_last();
    let prev = round_model(stocks, updates, front, memory, today);
    let all = round_model(stocks, updates, rules, memory, today);
    assert(rules.last() == rules[n]);
    assert forall|a: int, b: int|
        0 <= a < front.len() && 0 <= b < front.len() && a != b implies (#[trigger] front[a]).id@
        != (#[trigger] front[b]).id@ by {
        assert(front[a] == rules[a] && front[b] == rules[b]);
    }
    lemma_round_firings_in_range(stocks, updates, front, memory, today);
    if i == n {
        assert forall|j: int| 0 <= j < front.len() implies (#[trigger] front[j]).id@
            != rules[i].id@ by {
            assert(front[j] == rules[j]);
        }
        lemma_round_keeps_other_ids(stocks, updates, front, memory, today, rules[i].id@);
        assert(memory_entry(prev.0, rules[i].id@) == memory_entry(memory, rules[i].id@));
        assert(remembered(prev.0, rules[i].id@, fingerprint_text(rules[i])) == remembered(
            memory,
            rules[i].id@,
            fingerprint_text(rules[i]),
        ));
        if rule_fires_from(stocks, updates, rules[i], memory, today) {
            assert(all.1[prev.1.len() as int].0 == i);
        } else {
            assert(all.1 == prev.1);
        }
    } else {
        assert(front[i] == rules[i]);
        assert(rules[n].id@ != rules[i].id@);
        lemma_round_entry(stocks, updates, front, memory, today, i);
        assert forall|k: int| 0 <= k < prev.1.len() implies #[trigger] all.1[k] == prev.1[k] by {
        }
        if exists|k: int| 0 <= k < all.1.len() && (#[trigger] all.1[k]).0 == i {
            let k = choose|k: int| 0 <= k < all.1.len() && (#[trigger] all.1[k]).0 == i;
            if k < prev.1.len() {
                assert(prev.1[k].0 == i);
            }
        }
        if exists|k: int| 0 <= k < prev.1.len() && (#[trigger] prev.1[k]).0 == i {
            let k = choose|k: int| 0 <= k < prev.1.len() && (#[trigger] prev.1[k]).0 == i;
            assert(all.1[k].0 == i);
        }
    }
}

/// What a round does to each rule, for rules with distinct ids (the configuration
/// refuses a repeated id): afterwards the memory holds only configured rule ids; a
/// rule whose stock has a quote and whose metric has a value is remembered under its
/// current fingerprint with that value, any other rule keeps its entry as it was; and
/// a rule fires exactly when it fires against the memory as it was before the round,
/// so the order of the rules does not matter.
pub proof fn lemma_round_per_rule(
    stocks: Seq<StockConfig>,
    updates: Seq<Option<ProviderUpdate>>,
    rules: Seq<AlertRule>,
    memory: Map<Seq<char>, MemoryData>,
    today: Seq<char>,
    i: int,
)
    requires
        0 <= i < rules.len(),
        distinct_rule_ids(rules),
    ensures
        ({
            let (after, fired) = round_model(stocks, updates, rules, memory, today);
            let kept = after.restrict(rule_ids(rules));
            &&& forall|k: Seq<char>| kept.contains_key(k) ==> rule_ids(rules).contains(k)
            &&& memory_entry(kept, rules[i].id@) == entry_after_rule(
                stocks,
                updates,
                rules[i],
                memory_entry(memory, rules[i].id@),
            )
            &&& (exists|k: int| 0 <= k < fired.len() && (#[trigger] fired[k]).0 == i)
                <==> rule_fires_from(stocks, updates, rules[i], memory, today)
        }),
{
    lemma_round_entry(stocks, updates, rules, memory, today, i);
    assert(rule_ids(rules).contains(rules[i].id@));
}

/// Whether `n` is the notification of a firing (rule index, stock index, value).
pub open spec fn fired_ok(
    n: AlertNotification,
    f: (int, int, DecimalModel),
    rules: Seq<AlertRule>,
    stocks: Seq<StockConfig>,
) -> bool {
    &&& 0 <= f.0 < rules.len()
    &&& 0 <= f.1 < stocks.len()
    &&& is_notification(n, rules[f.0], stocks[f.1], f.2)
}

/// One round of alerts: every rule is evaluated against the quote of its stock
/// (`updates` is aligned with the stocks), the memory is updated, the rules no longer
/// configured are forgotten, and the notifications of the rules that fired are
/// returned in rule order. Without rules nothing happens.
pub fn process_alert_round(
    config: &AppConfig,
    updates: &Vec<Option<ProviderUpdate>>,
    memory: &mut AlertMemory,
    today: &str,
) -> (r: Vec<AlertNotification>)
    ensures
        config.alerts@.len() == 0 ==> r@.len() == 0 && final(memory)@ == old(memory)@,
        config.alerts@.len() > 0 ==> {
            let (m, fired) = round_model(
                config.stocks@,
                updates@,
                config.alerts@,
                old(memory)@,
                today@,
            );
            &&& final(memory)@ == m.restrict(rule_ids(config.alerts@))
            &&& r@.len() == fired.len()
            &&& forall|k: int|
                0 <= k < r@.len() ==> is_notification(
                    #[trigger] r@[k],
                    config.alerts@[fired[k].0],
                    config.stocks@[fired[k].1],
                    fired[k].2,
                )
        },
{
    let mut out: Vec<AlertNotification> = Vec::new();
    if config.alerts.len() == 0 {
        return out;
    }
    let ghost rules = config.alerts@;
    let ghost stocks = config.stocks@;
    let ghost start = memory@;
    let mut i: usize = 0;
    while i < config.alerts.len()
        invariant
            i <= rules.len(),
            rules == config.alerts@,
            stocks == config.stocks@,
            round_model(stocks, updates@, rules.take(i as int), start, today@).0 == memory@,
            out@.len() == round_model(stocks, updates@, rules.take(i as int), start, today@).1.len(),
            forall|k: int|
                0 <= k < out@.len() ==> fired_ok(
                    #[trigger] out@[k],
                    round_model(stocks, updates@, rules.take(i as int), start, today@).1[k],
                    rules,
                    stocks,
                ),
        decreases rules.len() - i,
    {
        let ghost before = round_model(stocks, updates@, rules.take(i as int), start, today@);
        assert(rules.take(i + 1).drop_last() =~= rules.take(i as int));
        assert(rules.take(i + 1).last() == rules[i as int]);
        let rule = &config.alerts[i];
        match find_stock_for(&config.stocks, rule.symbol.as_str()) {
            Some(si) => {
                if si < updates.len() {
                    match &updates[si] {
                        Some(u) => {
                            let fp = rule_fingerprint(rule);
                            let previous = memory.previous_value(rule.id.as_str(), fp.as_str());
                            let (value, fired) = evaluate_rule(
                                rule,
                                &config.stocks[si],
                                u,
                                previous,
                                today,
                            );
                            match value {
                                Some(v) => memory.remember(rule.id.as_str(), fp, v),
                                None => {},
                            }
                            proof {
                                let stock = stocks[si as int];
                                assert(stock_for(stocks, rule.symbol@) == Some(si as int));
                                assert(update_at(updates@, si as int) == Some(*u));
                                assert(crate::decimal::opt_model(previous) == opt_value(previous));
                                let after = round_step(stocks, updates@, before, i as int, rules[i as int], today@);
                                if fired is Some {
                                    assert(fires(*rule, stock, *u, opt_value(previous), today@));
                                    assert(after.1 == before.1.push((i as int, si as int, value->0@)));
                                } else {
                                    assert(after.1 == before.1);
                                }
                            }
                            match fired {
                                Some(n) => out.push(n),
                                None => {},
                            }
                        },
                        None => {},
                    }
                }
            },
            None => {},
        }
        i += 1;
    }
    assert(rules.take(rules.len() as int) =~= rules);
    memory.retain_rules(&config.alerts);
    out
}


/// A rule with nothing remembered under its current fingerprint (a new rule, or one
/// whose symbol, metric, condition or threshold was edited) does not fire: its first
/// evaluation only arms it.
pub proof fn lemma_unarmed_rule_does_not_fire(
    stocks: Seq<StockConfig>,
    updates: Seq<Option<ProviderUpdate>>,
    state: RoundModel,
    i: int,
    rule: AlertRule,
    today: Seq<char>,
)
    requires
        remembered(state.0, rule.id@, fingerprint_text(rule)) is None,
    ensures
        round_step(stocks, updates, state, i, rule, today).1 == state.1,
{
}

/// When a rule's metric has no value this round (market not trading, no position,
/// zero previous close), its memory is kept as it was and it does not fire.
pub proof fn lemma_missing_value_keeps_memory(
    stocks: Seq<StockConfig>,
    updates: Seq<Option<ProviderUpdate>>,
    state: RoundModel,
    i: int,
    rule: AlertRule,
    today: Seq<char>,
)
    requires
        stock_for(stocks, rule.symbol@) matches Some(si) && update_at(updates, si) matches Some(u)
            && evaluated_value(rule, stocks[si], u) is None,
    ensures
        round_step(stocks, updates, state, i, rule, today) == state,
{
}

/// A rule whose remembered value already met its condition does not fire again while
/// the value stays beyond the threshold.
pub proof fn lemma_resting_beyond_threshold_does_not_fire(
    rule: AlertRule,
    stock: StockConfig,
    update: ProviderUpdate,
    previous: DecimalModel,
    today: Seq<char>,
)
    requires
        satisfied_model(rule.comparator, previous, rule.threshold@),
    ensures
        !fires(rule, stock, update, Some(previous), today),
{
}

/// The index of the first rule with id `id`.
pub open spec fn rule_index(rules: Seq<AlertRule>, id: Seq<char>) -> Option<int> {
    if exists|k: int| is_first_rule(rules, id, k) {
        Some(choose|k: int| is_first_rule(rules, id, k))
    } else {
        None
    }
}

/// `k` is the first rule with id `id`.
pub open spec fn is_first_rule(rules: Seq<AlertRule>, id: Seq<char>, k: int) -> bool {
    0 <= k < rules.len() && rules[k].id@ == id && forall|j: int| 0 <= j < k ==> rules[j].id@ != id
}

/// Whether `after` is `before` marked as fired on `today` (once or more).
pub open spec fn is_marked(before: AlertRule, after: AlertRule, today: Seq<char>) -> bool {
    &&& opt_day(after.last_triggered_day) == Some(today)
    &&& after.enabled == (before.enabled && before.repeat == AlertRepeat::DailyOnce)
    &&& after.id == before.id
    &&& after.symbol == before.symbol
    &&& after.metric == before.metric
    &&& after.comparator == before.comparator
    &&& after.threshold == before.threshold
    &&& after.repeat == before.repeat
    &&& after.silent == before.silent
    &&& after.custom_title == before.custom_title
    &&& after.custom_body == before.custom_body
}

/// Whether some notification names the rule at index `k` (its first rule by id).
pub open spec fn notified(rules: Seq<AlertRule>, notifications: Seq<AlertNotification>, k: int) -> bool {
    exists|n: int| 0 <= n < notifications.len() && rule_index(rules, (#[trigger] notifications[n]).rule_id@) == Some(k)
}

/// The first rule with id `id`.
fn find_rule(rules: &Vec<AlertRule>, id: &str) -> (r: Option<usize>)
    ensures
        r matches Some(k) ==> rule_index(rules@, id@) == Some(k as int),
        r is None ==> rule_index(rules@, id@) is None,
{
    let key = chars_of(id);
    let mut k: usize = 0;
    while k < rules.len()
        invariant
            k <= rules@.len(),
            key@ == id@,
            forall|j: int| 0 <= j < k ==> rules@[j].id@ != id@,
        decreases rules.len() - k,
    {
        if crate::text::same_chars(&chars_of(rules[k].id.as_str()), &key) {
            proof {
                assert(is_first_rule(rules@, id@, k as int));
                let c = choose|m: int| is_first_rule(rules@, id@, m);
                if c < k {
                    assert(rules@[c].id@ != id@);
                } else if c > k {
                    assert(rules@[k as int].id@ != id@);
                }
            }
            return Some(k);
        }
        k += 1;
    }
    proof {
        if exists|m: int| is_first_rule(rules@, id@, m) {
            let c = choose|m: int| is_first_rule(rules@, id@, m);
            assert(rules@[c].id@ == id@);
        }
    }
    None
}

/// Whether two rule lists have the same ids at the same places.
pub open spec fn same_ids(a: Seq<AlertRule>, b: Seq<AlertRule>) -> bool {
    a.len() == b.len() && forall|k: int| 0 <= k < a.len() ==> (#[trigger] a[k]).id == b[k].id
}

/// After a round that fired: marks, for every notification, the first rule with its id
/// as fired today (a once-a-day rule records the day; a one-shot rule also disables
/// itself). Other rules are left as they were.
pub fn mark_fired_rules(rules: &mut Vec<AlertRule>, notifications: &Vec<AlertNotification>, today: &str)
    ensures
        final(rules)@.len() == old(rules)@.len(),
        forall|k: int|
            0 <= k < old(rules)@.len() ==> if notified(old(rules)@, notifications@, k) {
                is_marked(old(rules)@[k], #[trigger] final(rules)@[k], today@)
            } else {
                final(rules)@[k] == old(rules)@[k]
            },
{
    let ghost start = rules@;
    let mut n: usize = 0;
    while n < notifications.len()
        invariant
            n <= notifications@.len(),
            same_ids(start, rules@),
            forall|k: int|
                0 <= k < start.len() ==> if notified(start, notifications@.take(n as int), k) {
                    is_marked(start[k], #[trigger] rules@[k], today@)
                } else {
                    rules@[k] == start[k]
                },
        decreases notifications.len() - n,
    {
        let ghost before = rules@;
        proof {
            assert forall|j: int| 0 <= j < before.len() implies (#[trigger] before[j]).id@ == start[j].id@ by {
                assert(before[j].id == start[j].id);
            }
            assert(rule_index(before, notifications@[n as int].rule_id@) == rule_index(
                start,
                notifications@[n as int].rule_id@,
            )) by {
                let id = notifications@[n as int].rule_id@;
                assert forall|k: int| is_first_rule(before, id, k) == is_first_rule(start, id, k) by {
                    if 0 <= k < start.len() {
                        assert(before[k].id@ == start[k].id@);
                        assert forall|j: int| 0 <= j < k implies before[j].id@ == start[j].id@ by {}
                    }
                }
            }
        }
        match find_rule(rules, notifications[n].rule_id.as_str()) {
            Some(k) => {
                let mut rule = rules.remove(k);
                mark_triggered(&mut rule, today);
                rules.insert(k, rule);
                proof {
                    assert forall|j: int| 0 <= j < start.len() implies (if notified(
                        start,
                        notifications@.take(n + 1),
                        j,
                    ) {
                        is_marked(start[j], #[trigger] rules@[j], today@)
                    } else {
                        rules@[j] == start[j]
                    }) by {
                        let id = notifications@[n as int].rule_id@;
                        let t = notifications@.take(n + 1);
                        assert(t[n as int] == notifications@[n as int]);
                        if j == k {
                            assert(notified(start, t, j));
                        } else {
                            assert(rules@[j] == before[j]);
                            if notified(start, t, j) {
                                let m = choose|m: int| 0 <= m < t.len() && rule_index(start, (#[trigger] t[m]).rule_id@) == Some(j);
                                assert(m != n);
                                assert(notifications@.take(n as int)[m] == t[m]);
                                assert(notified(start, notifications@.take(n as int), j));
                            } else {
                                if notified(start, notifications@.take(n as int), j) {
                                    let m = choose|m: int| 0 <= m < n && rule_index(start, (#[trigger] notifications@.take(n as int)[m]).rule_id@) == Some(j);
                                    assert(t[m] == notifications@.take(n as int)[m]);
                                }
                            }
                        }
                    }
                    assert forall|j: int| 0 <= j < rules@.len() implies (#[trigger] rules@[j]).id == start[j].id by {
                        if j != k {
                            assert(rules@[j] == before[j]);
                        }
                    }
                }
            },
            None => {
                proof {
                    assert forall|j: int| 0 <= j < start.len() implies notified(
                        start,
                        notifications@.take(n + 1),
                        j,
                    ) == notified(start, notifications@.take(n as int), j) by {
                        let t = notifications@.take(n + 1);
                        if notified(start, t, j) {
                            let m = choose|m: int| 0 <= m < t.len() && rule_index(start, (#[trigger] t[m]).rule_id@) == Some(j);
                            assert(t[n as int] == notifications@[n as int]);
                            assert(m != n);
                            assert(notifications@.take(n as int)[m] == t[m]);
                        }
                        if notified(start, notifications@.take(n as int), j) {
                            let m = choose|m: int| 0 <= m < n && rule_index(start, (#[trigger] notifications@.take(n as int)[m]).rule_id@) == Some(j);
                            assert(t[m] == notifications@.take(n as int)[m]);
                        }
                    }
                }
            },
        }
        n += 1;
    }
    assert(notifications@.take(notifications@.len() as int) =~= notifications@);
}


/// The value a test notification shows: the metric's value on the stock's cached
/// quote, or the rule's threshold when there is no quote or no value.
pub open spec fn test_value(rule: AlertRule, stock: StockConfig, update: Option<ProviderUpdate>) -> DecimalModel {
    match update {
        Some(u) => match metric_value_model(rule.metric, stock, u) {
            Some(v) => v,
            None => rule.threshold@,
        },
        None => rule.threshold@,
    }
}

/// The notification a test send of `rule` delivers: built exactly as a real firing
/// would be, for the rule's stock (found by trimmed symbol) and its current value,
/// without the crossing check; an error when the stock is not configured.
pub fn test_alert_notification(
    config: &AppConfig,
    updates: &Vec<Option<ProviderUpdate>>,
    rule: &AlertRule,
) -> (r: Result<AlertNotification, String>)
    ensures
        match stock_for(config.stocks@, rule.symbol@) {
            Some(si) => r matches Ok(n) && is_notification(
                n,
                *rule,
                config.stocks@[si],
                test_value(*rule, config.stocks@[si], update_at(updates@, si)),
            ),
            None => r matches Err(m) && m@ == "找不到股票 "@ + rule.symbol@ + "，请先保存设置"@,
        },
{
    let si = match find_stock_for(&config.stocks, rule.symbol.as_str()) {
        Some(si) => si,
        None => {
            let mut m = String::from_str("找不到股票 ");
            m.append(rule.symbol.as_str());
            m.append("，请先保存设置");
            return Err(m);
        },
    };
    let stock = &config.stocks[si];
    let value = if si < updates.len() {
        match &updates[si] {
            Some(u) => match metric_value(rule.metric, stock, u) {
                Some(v) => v,
                None => rule.threshold,
            },
            None => rule.threshold,
        }
    } else {
        rule.threshold
    };
    Ok(build_notification(rule, stock, value))
}


/// Two rules with the same symbol key, metric and condition and thresholds of equal
/// value (`30` and `30.00`) have the same fingerprint, whatever their ids, texts,
/// silence or repetition: such a change is no edit and keeps the crossing memory.
pub proof fn lemma_fingerprint_ignores_notation(a: AlertRule, b: AlertRule)
    requires
        symbol_key(a.symbol@) == symbol_key(b.symbol@),
        a.metric == b.metric,
        a.comparator == b.comparator,
        crate::decimal::value_eq(a.threshold@, b.threshold@),
    ensures
        fingerprint_text(a) == fingerprint_text(b),
{
    crate::decimal::lemma_normalize_value_eq(a.threshold@, b.threshold@);
}


/// A value rounded to two decimals (ties to even) and shown with exactly two.
pub open spec fn two_decimals(d: DecimalModel) -> Seq<char> {
    decimal_text(rescaled_model(round_dp_model(d, 2), 2))
}

/// A value rounded to two decimals and shown with exactly two.
pub fn two_decimals_text(value: Decimal) -> (r: String)
    ensures
        r@ == two_decimals(value@),
{
    let rounded = round_dp(value, 2);
    proof {
        use_type_invariant(rounded);
    }
    decimal_to_string(rescale_up(rounded, 2))
}

/// The name shown for a stock.
pub fn display_name(stock: &StockConfig) -> (r: String)
    ensures
        r@ == stock_display_name(*stock),
{
    let short = trimmed_of(stock.short_name.as_str());
    if short.len() == 0 {
        string_of(&trimmed_of(stock.symbol.as_str()))
    } else {
        string_of(&short)
    }
}


/// Whether a character is an ASCII lowercase letter.
pub open spec fn is_ascii_lower(c: char) -> bool {
    'a' <= c && c <= 'z'
}

/// A symbol key holds no ASCII lowercase letter.
proof fn lemma_key_not_lower(s: Seq<char>)
    ensures
        forall|j: int| 0 <= j < symbol_key(s).len() ==> !is_ascii_lower(#[trigger] symbol_key(s)[j]),
{
    let t = trim(s);
    assert forall|j: int| 0 <= j < symbol_key(s).len() implies !is_ascii_lower(
        #[trigger] symbol_key(s)[j],
    ) by {
        assert(symbol_key(s)[j] == crate::text::upper_char(t[j]));
    }
}

/// A metric's name: a capital, then a small letter, and no bar.
proof fn lemma_metric_name_shape(m: AlertMetric)
    ensures
        metric_name(m).len() >= 2,
        !is_ascii_lower(metric_name(m)[0]),
        is_ascii_lower(metric_name(m)[1]),
        forall|j: int| 0 <= j < metric_name(m).len() ==> metric_name(m)[j] != '|',
{
    reveal_strlit("Price");
    reveal_strlit("ChangePercent");
    reveal_strlit("PositionProfit");
    reveal_strlit("PositionReturnPercent");
}

/// Different metrics have different names (of different lengths).
proof fn lemma_metric_name_injective(m: AlertMetric, n: AlertMetric)
    requires
        metric_name(m) == metric_name(n),
    ensures
        m == n,
{
    reveal_strlit("Price");
    reveal_strlit("ChangePercent");
    reveal_strlit("PositionProfit");
    reveal_strlit("PositionReturnPercent");
    assert(metric_name(AlertMetric::Price).len() == 5);
    assert(metric_name(AlertMetric::ChangePercent).len() == 13);
    assert(metric_name(AlertMetric::PositionProfit).len() == 14);
    assert(metric_name(AlertMetric::PositionReturnPercent).len() == 21);
    assert(metric_name(m).len() == metric_name(n).len());
    match m {
        AlertMetric::Price => {},
        AlertMetric::ChangePercent => {},
        AlertMetric::PositionProfit => {},
        AlertMetric::PositionReturnPercent => {},
    }
}

/// A condition's name has no bar, and the two names differ.
proof fn lemma_comparator_names(c: AlertComparator, d: AlertComparator)
    ensures
        forall|j: int| 0 <= j < comparator_name(c).len() ==> comparator_name(c)[j] != '|',
        comparator_name(c) == comparator_name(d) ==> c == d,
{
    reveal_strlit("Above");
    reveal_strlit("Below");
    assert("Above"@[0] != "Below"@[0]);
}

/// Two texts made of a key without small letters, a bar and a metric name are split
/// alike: the same key, the same rest.
proof fn lemma_same_key(ka: Seq<char>, ra: Seq<char>, kb: Seq<char>, rb: Seq<char>, ma: Seq<char>, mb: Seq<char>, ta: Seq<char>, tb: Seq<char>)
    requires
        ka + seq!['|'] + ra == kb + seq!['|'] + rb,
        ra == ma + ta,
        rb == mb + tb,
        forall|j: int| 0 <= j < ka.len() ==> !is_ascii_lower(#[trigger] ka[j]),
        forall|j: int| 0 <= j < kb.len() ==> !is_ascii_lower(#[trigger] kb[j]),
        ma.len() >= 2 && !is_ascii_lower(ma[0]) && is_ascii_lower(ma[1]),
        mb.len() >= 2 && !is_ascii_lower(mb[0]) && is_ascii_lower(mb[1]),
    ensures
        ka == kb,
        ra == rb,
{
    lemma_first_small_letter(ka, ma, ta);
    lemma_first_small_letter(kb, mb, tb);
    let f = ka + seq!['|'] + ra;
    assert(f == ka + seq!['|'] + (ma + ta));
    assert(kb + seq!['|'] + rb == kb + seq!['|'] + (mb + tb));
    if ka.len() < kb.len() {
        assert(f[ka.len() as int + 2] == (kb + seq!['|'] + rb)[ka.len() as int + 2]);
    } else if kb.len() < ka.len() {
        assert(f[kb.len() as int + 2] == (kb + seq!['|'] + rb)[kb.len() as int + 2]);
    }
    assert(ka =~= f.subrange(0, ka.len() as int));
    assert(kb =~= (kb + seq!['|'] + rb).subrange(0, kb.len() as int));
    assert(ra =~= f.subrange(ka.len() as int + 1, f.len() as int));
    assert(rb =~= (kb + seq!['|'] + rb).subrange(kb.len() as int + 1, f.len() as int));
}

/// In a key, a bar and a metric name, the first small letter stands just after the
/// key, its bar and the metric's capital.
proof fn lemma_first_small_letter(k: Seq<char>, m: Seq<char>, rest: Seq<char>)
    requires
        forall|j: int| 0 <= j < k.len() ==> !is_ascii_lower(#[trigger] k[j]),
        m.len() >= 2,
        !is_ascii_lower(m[0]),
        is_ascii_lower(m[1]),
    ensures
        is_ascii_lower((k + seq!['|'] + (m + rest))[k.len() as int + 2]),
        forall|j: int|
            0 <= j < k.len() + 2 ==> !is_ascii_lower(#[trigger] (k + seq!['|'] + (m + rest))[j]),
{
    let g = k + seq!['|'] + (m + rest);
    assert(g[k.len() as int + 2] == m[1]);
    assert forall|j: int| 0 <= j < k.len() + 2 implies !is_ascii_lower(#[trigger] g[j]) by {
        if j < k.len() {
            assert(g[j] == k[j]);
        } else if j == k.len() {
            assert(g[j] == '|');
        } else {
            assert(g[j] == m[0]);
        }
    }
}

/// A fingerprint determines the rule's semantics: rules with the same fingerprint have
/// the same symbol key, metric and condition and thresholds of equal value. So editing
/// any of them gives a new fingerprint, and the rule is armed afresh.
#[verifier::spinoff_prover]
#[verifier::rlimit(40)]
pub proof fn lemma_fingerprint_tells_rules_apart(a: AlertRule, b: AlertRule)
    requires
        fingerprint_text(a) == fingerprint_text(b),
    ensures
        symbol_key(a.symbol@) == symbol_key(b.symbol@),
        a.metric == b.metric,
        a.comparator == b.comparator,
        crate::decimal::value_eq(a.threshold@, b.threshold@),
{
    reveal_strlit("|");
    lemma_key_not_lower(a.symbol@);
    lemma_key_not_lower(b.symbol@);
    lemma_metric_name_shape(a.metric);
    lemma_metric_name_shape(b.metric);
    lemma_comparator_names(a.comparator, b.comparator);
    lemma_comparator_names(b.comparator, a.comparator);
    let bar = seq!['|'];
    let ka = symbol_key(a.symbol@);
    let kb = symbol_key(b.symbol@);
    let ma = metric_name(a.metric);
    let mb = metric_name(b.metric);
    let ca = comparator_name(a.comparator);
    let cb = comparator_name(b.comparator);
    let ta = decimal_text(normalize_model(a.threshold@));
    let tb = decimal_text(normalize_model(b.threshold@));
    let ra = ma + bar + (ca + bar + ta);
    let rb = mb + bar + (cb + bar + tb);
    assert(fingerprint_text(a) =~= ka + bar + ra);
    assert(fingerprint_text(b) =~= kb + bar + rb);
    assert(ra =~= ma + (bar + (ca + bar + ta)));
    assert(rb =~= mb + (bar + (cb + bar + tb)));
    lemma_same_key(ka, ra, kb, rb, ma, mb, bar + (ca + bar + ta), bar + (cb + bar + tb));
    crate::decimal::lemma_split_at(ma, '|', ca + bar + ta, mb, cb + bar + tb);
    lemma_metric_name_injective(a.metric, b.metric);
    crate::decimal::lemma_split_at(ca, '|', ta, cb, tb);
    crate::decimal::lemma_decimal_text_injective(
        normalize_model(a.threshold@),
        normalize_model(b.threshold@),
    );
    crate::decimal::lemma_same_normal_form_same_value(a.threshold@, b.threshold@);
}

} // verus!
