//! Portfolio totals: per-stock profit and loss summed per currency.
//!
//! Currencies are never mixed: without exchange rates, adding Hong Kong dollars to
//! yuan would give a number that looks precise and is wrong.

use vstd::prelude::*;

use crate::config::StockConfig;
use crate::decimal::{
    checked_add, checked_div, checked_mul, decimal_product, decimal_quotient, decimal_sum,
    Decimal, DecimalModel,
};
use crate::domain::{calculate_position, position_pnl, DomainError, PnlModel, QuoteSnapshot};
use crate::text::{chars_of, same_chars, string_of, trim, trimmed_of, upper, uppercased};

verus! {

broadcast use vstd::string::group_string_axioms;

/// The profit and loss of one stock.
#[derive(Clone, Debug)]
pub struct PositionRow {
    pub symbol: String,
    pub short_name: String,
    pub currency: String,
    pub market_value: Decimal,
    pub cost_basis: Decimal,
    pub unrealized_profit: Decimal,
    pub return_percent: Decimal,
}

/// The totals of one currency.
#[derive(Clone, Debug)]
pub struct PortfolioTotal {
    pub currency: String,
    pub market_value: Decimal,
    pub cost_basis: Decimal,
    pub unrealized_profit: Decimal,
    pub return_percent: Decimal,
}

/// Rows, totals per currency, and how many positions could not be counted.
#[derive(Clone, Debug)]
pub struct PortfolioSummary {
    /// Stocks with a position and a quote, in configuration order.
    pub rows: Vec<PositionRow>,
    /// Totals per currency, in order of first appearance.
    pub totals: Vec<PortfolioTotal>,
    /// Stocks with a position whose profit could not be computed (no quote, a zero
    /// cost basis, or a result out of range).
    pub missing_quotes: usize,
}

/// A row as plain values.
pub struct RowModel {
    pub symbol: Seq<char>,
    pub short_name: Seq<char>,
    pub currency: Seq<char>,
    pub market_value: DecimalModel,
    pub cost_basis: DecimalModel,
    pub profit: DecimalModel,
    pub return_percent: DecimalModel,
}

/// A running total as plain values.
pub struct TotalModel {
    pub currency: Seq<char>,
    pub market_value: DecimalModel,
    pub cost_basis: DecimalModel,
    pub profit: DecimalModel,
}

/// The summary so far.
pub struct SummaryModel {
    pub rows: Seq<RowModel>,
    pub totals: Seq<TotalModel>,
    pub missing: nat,
}

/// A currency code trimmed and uppercased, "—" when blank.
pub open spec fn currency_key_model(c: Seq<char>) -> Seq<char> {
    let t = trim(c);
    if t.len() == 0 {
        "—"@
    } else {
        upper(t)
    }
}

/// The index of the total in `currency`, if any.
pub open spec fn total_index(totals: Seq<TotalModel>, currency: Seq<char>) -> Option<int> {
    if exists|i: int| 0 <= i < totals.len() && totals[i].currency == currency {
        Some(choose|i: int| 0 <= i < totals.len() && totals[i].currency == currency)
    } else {
        None
    }
}

/// Whether no two totals share a currency.
pub open spec fn distinct_currencies(totals: Seq<TotalModel>) -> bool {
    forall|i: int, j: int|
        0 <= i < totals.len() && 0 <= j < totals.len() && i != j ==> totals[i].currency
            != totals[j].currency
}

/// One stock folded into the summary: without a position it is skipped; without a
/// quote, or when its profit cannot be computed or added to its currency's total, it
/// is counted as missing; otherwise it gets a row and is added to its currency's
/// total, which is opened when new.
pub open spec fn summary_step(s: SummaryModel, stock: StockConfig, quote: Option<QuoteSnapshot>) -> SummaryModel {
    match stock.position {
        None => s,
        Some(p) => match quote {
            None => SummaryModel { missing: s.missing + 1, ..s },
            Some(q) => match position_pnl(q, p) {
                PnlModel::Computed { market_value, cost_basis, profit, return_percent } => {
                    let currency = currency_key_model(stock.currency@);
                    let row = RowModel {
                        symbol: trim(stock.symbol@),
                        short_name: trim(stock.short_name@),
                        currency,
                        market_value,
                        cost_basis,
                        profit,
                        return_percent,
                    };
                    match total_index(s.totals, currency) {
                        None => SummaryModel {
                            rows: s.rows.push(row),
                            totals: s.totals.push(
                                TotalModel { currency, market_value, cost_basis, profit },
                            ),
                            missing: s.missing,
                        },
                        Some(t) => {
                            let old = s.totals[t];
                            match (
                                decimal_sum(old.market_value, market_value),
                                decimal_sum(old.cost_basis, cost_basis),
                                decimal_sum(old.profit, profit),
                            ) {
                                (Some(mv), Some(cb), Some(pf)) => SummaryModel {
                                    rows: s.rows.push(row),
                                    totals: s.totals.update(
                                        t,
                                        TotalModel {
                                            currency,
                                            market_value: mv,
                                            cost_basis: cb,
                                            profit: pf,
                                        },
                                    ),
                                    missing: s.missing,
                                },
                                _ => SummaryModel { missing: s.missing + 1, ..s },
                            }
                        },
                    }
                },
                _ => SummaryModel { missing: s.missing + 1, ..s },
            },
        },
    }
}

/// The quote of stock `i`, if the list has one.
pub open spec fn quote_at(quotes: Seq<Option<QuoteSnapshot>>, i: int) -> Option<QuoteSnapshot> {
    if 0 <= i < quotes.len() {
        quotes[i]
    } else {
        None
    }
}

/// The summary of the first `n` stocks.
pub open spec fn summary_model(
    stocks: Seq<StockConfig>,
    quotes: Seq<Option<QuoteSnapshot>>,
    n: int,
) -> SummaryModel
    decreases n,
{
    if n <= 0 {
        SummaryModel { rows: Seq::empty(), totals: Seq::empty(), missing: 0 }
    } else {
        summary_step(summary_model(stocks, quotes, n - 1), stocks[n - 1], quote_at(quotes, n - 1))
    }
}

/// Return in percent of a total: profit ÷ cost basis × 100, zero for a zero cost
/// basis (and, where that does not fit, zero as well).
pub open spec fn total_return(profit: DecimalModel, cost_basis: DecimalModel) -> DecimalModel {
    if cost_basis.0 == 0 {
        (0nat, 0nat, false)
    } else {
        match decimal_quotient(profit, cost_basis) {
            Some(ratio) => match decimal_product(ratio, (100nat, 0nat, false)) {
                Some(p) => p,
                None => (0nat, 0nat, false),
            },
            None => (0nat, 0nat, false),
        }
    }
}

/// The model of a row.
pub open spec fn row_model(r: PositionRow) -> RowModel {
    RowModel {
        symbol: r.symbol@,
        short_name: r.short_name@,
        currency: r.currency@,
        market_value: r.market_value@,
        cost_basis: r.cost_basis@,
        profit: r.unrealized_profit@,
        return_percent: r.return_percent@,
    }
}

/// The model of a total, without its return.
pub open spec fn total_model(t: PortfolioTotal) -> TotalModel {
    TotalModel {
        currency: t.currency@,
        market_value: t.market_value@,
        cost_basis: t.cost_basis@,
        profit: t.unrealized_profit@,
    }
}

/// Whether some total is in `currency`.
pub open spec fn has_total(totals: Seq<TotalModel>, currency: Seq<char>) -> bool {
    exists|t: int| 0 <= t < totals.len() && totals[t].currency == currency
}

/// Whether every row's currency has a total.
pub open spec fn rows_have_totals(s: SummaryModel) -> bool {
    forall|i: int| 0 <= i < s.rows.len() ==> #[trigger] has_total(s.totals, s.rows[i].currency)
}

/// Whether stock `i` has a position.
pub open spec fn has_position(stocks: Seq<StockConfig>, i: int) -> bool {
    stocks[i].position is Some
}

/// How many of the first `n` stocks have a position.
pub open spec fn positions_count(stocks: Seq<StockConfig>, n: int) -> nat
    decreases n,
{
    if n <= 0 {
        0
    } else {
        positions_count(stocks, n - 1) + if has_position(stocks, n - 1) {
            1nat
        } else {
            0nat
        }
    }
}

/// Every stock with a position either gets a row or is counted as missing, and no
/// currency has two totals.
pub proof fn lemma_summary_accounts_for_every_position(
    stocks: Seq<StockConfig>,
    quotes: Seq<Option<QuoteSnapshot>>,
    n: int,
)
    requires
        0 <= n <= stocks.len(),
    ensures
        summary_model(stocks, quotes, n).rows.len() + summary_model(stocks, quotes, n).missing
            == positions_count(stocks, n),
        distinct_currencies(summary_model(stocks, quotes, n).totals),
        rows_have_totals(summary_model(stocks, quotes, n)),
    decreases n,
{
    if n > 0 {
        lemma_summary_accounts_for_every_position(stocks, quotes, n - 1);
        let s = summary_model(stocks, quotes, n - 1);
        let s2 = summary_model(stocks, quotes, n);
        let stock = stocks[n - 1];
        if let Some(p) = stock.position {
            if let Some(q) = quote_at(quotes, n - 1) {
                if let PnlModel::Computed { .. } = position_pnl(q, p) {
                    let currency = currency_key_model(stock.currency@);
                    match total_index(s.totals, currency) {
                        None => {
                            assert forall|i: int, j: int|
                                0 <= i < s2.totals.len() && 0 <= j < s2.totals.len() && i
                                    != j implies s2.totals[i].currency != s2.totals[j].currency by {
                                if i == s.totals.len() as int {
                                    assert(s2.totals[j] == s.totals[j]);
                                } else if j == s.totals.len() as int {
                                    assert(s2.totals[i] == s.totals[i]);
                                }
                            }
                            assert forall|i: int| 0 <= i < s2.rows.len() implies #[trigger] has_total(
                                s2.totals,
                                s2.rows[i].currency,
                            ) by {
                                if i == s.rows.len() as int {
                                    assert(s2.totals[s.totals.len() as int].currency == currency);
                                } else {
                                    assert(has_total(s.totals, s.rows[i].currency));
                                    let t = choose|t: int|
                                        0 <= t < s.totals.len() && s.totals[t].currency
                                            == s.rows[i].currency;
                                    assert(s2.totals[t] == s.totals[t]);
                                }
                            }
                        },
                        Some(t0) => {
                            assert(0 <= t0 < s.totals.len() && s.totals[t0].currency == currency);
                            assert forall|i: int| 0 <= i < s2.rows.len() implies #[trigger] has_total(
                                s2.totals,
                                s2.rows[i].currency,
                            ) by {
                                if i == s.rows.len() as int {
                                    if s2.rows.len() > s.rows.len() {
                                        assert(s2.totals[t0].currency == currency);
                                    }
                                } else {
                                    assert(has_total(s.totals, s.rows[i].currency));
                                    let t = choose|t: int|
                                        0 <= t < s.totals.len() && s.totals[t].currency
                                            == s.rows[i].currency;
                                    assert(s2.totals[t].currency == s.totals[t].currency);
                                }
                            }
                        },
                    }
                }
            }
        }
    }
}

/// The rows in currency `c`, in order.
pub open spec fn rows_in_currency(rows: Seq<RowModel>, c: Seq<char>) -> Seq<RowModel>
    decreases rows.len(),
{
    if rows.len() == 0 {
        Seq::empty()
    } else {
        let w = rows_in_currency(rows.drop_last(), c);
        if rows.last().currency == c {
            w.push(rows.last())
        } else {
            w
        }
    }
}

/// The market values of rows.
pub open spec fn market_values(rows: Seq<RowModel>) -> Seq<DecimalModel> {
    rows.map_values(|r: RowModel| r.market_value)
}

/// The cost bases of rows.
pub open spec fn cost_bases(rows: Seq<RowModel>) -> Seq<DecimalModel> {
    rows.map_values(|r: RowModel| r.cost_basis)
}

/// The profits of rows.
pub open spec fn profits(rows: Seq<RowModel>) -> Seq<DecimalModel> {
    rows.map_values(|r: RowModel| r.profit)
}

/// The sum of values added left to right with `rust_decimal`'s `+`; none for no
/// values or an overflow.
pub open spec fn running_sum(values: Seq<DecimalModel>) -> Option<DecimalModel>
    decreases values.len(),
{
    if values.len() == 0 {
        None
    } else if values.len() == 1 {
        Some(values[0])
    } else {
        match running_sum(values.drop_last()) {
            Some(a) => decimal_sum(a, values.last()),
            None => None,
        }
    }
}

/// Adding one more value to a running sum.
proof fn lemma_running_sum_push(values: Seq<DecimalModel>, x: DecimalModel)
    ensures
        running_sum(values.push(x)) == if values.len() == 0 {
            Some(x)
        } else {
            match running_sum(values) {
                Some(a) => decimal_sum(a, x),
                None => None,
            }
        },
{
    assert(values.push(x).drop_last() =~= values);
}

/// Filtering a longer list of rows by currency.
proof fn lemma_rows_in_currency_push(rows: Seq<RowModel>, row: RowModel, c: Seq<char>)
    ensures
        rows_in_currency(rows.push(row), c) == if row.currency == c {
            rows_in_currency(rows, c).push(row)
        } else {
            rows_in_currency(rows, c)
        },
{
    assert(rows.push(row).drop_last() =~= rows);
}

/// No row in a currency that no row has.
proof fn lemma_rows_in_absent_currency(rows: Seq<RowModel>, c: Seq<char>)
    requires
        forall|i: int| 0 <= i < rows.len() ==> (#[trigger] rows[i]).currency != c,
    ensures
        rows_in_currency(rows, c).len() == 0,
    decreases rows.len(),
{
    if rows.len() > 0 {
        assert forall|i: int| 0 <= i < rows.drop_last().len() implies (
        #[trigger] rows.drop_last()[i]).currency != c by {
            assert(rows.drop_last()[i] == rows[i]);
        }
        assert(rows.last() == rows[rows.len() - 1]);
        lemma_rows_in_absent_currency(rows.drop_last(), c);
    }
}

/// The three sums of a total agree with its rows.
pub open spec fn total_matches_rows(rows: Seq<RowModel>, t: TotalModel) -> bool {
    let mine = rows_in_currency(rows, t.currency);
    &&& running_sum(market_values(mine)) == Some(t.market_value)
    &&& running_sum(cost_bases(mine)) == Some(t.cost_basis)
    &&& running_sum(profits(mine)) == Some(t.profit)
}

/// Whether a row is the profit and loss of stock `k`: market value = last price ×
/// quantity, cost basis = average cost × quantity, profit = market value − cost basis,
/// return = profit ÷ cost basis × 100, each as `rust_decimal` computes it, with the
/// stock's trimmed symbol and name and its currency key.
pub open spec fn row_of_stock(
    row: RowModel,
    stocks: Seq<StockConfig>,
    quotes: Seq<Option<QuoteSnapshot>>,
    k: int,
) -> bool {
    &&& 0 <= k < stocks.len()
    &&& stocks[k].position matches Some(p) && quote_at(quotes, k) matches Some(q) && {
        &&& decimal_product(q.last_price@, p.quantity@) == Some(row.market_value)
        &&& decimal_product(p.average_cost@, p.quantity@) == Some(row.cost_basis)
        &&& crate::decimal::decimal_difference(row.market_value, row.cost_basis) == Some(
            row.profit,
        )
        &&& decimal_quotient(row.profit, row.cost_basis) matches Some(ratio) && decimal_product(
            ratio,
            (100nat, 0nat, false),
        ) == Some(row.return_percent)
    }
    &&& row.symbol == trim(stocks[k].symbol@)
    &&& row.short_name == trim(stocks[k].short_name@)
    &&& row.currency == currency_key_model(stocks[k].currency@)
}

/// Whether a row is the profit and loss of one of the first `n` stocks.
pub open spec fn row_from_some_stock(
    row: RowModel,
    stocks: Seq<StockConfig>,
    quotes: Seq<Option<QuoteSnapshot>>,
    n: int,
) -> bool {
    exists|k: int| 0 <= k < n && #[trigger] row_of_stock(row, stocks, quotes, k)
}

/// Whether every row is the profit and loss of one of the first `n` stocks.
pub open spec fn rows_from_stocks(
    rows: Seq<RowModel>,
    stocks: Seq<StockConfig>,
    quotes: Seq<Option<QuoteSnapshot>>,
    n: int,
) -> bool {
    forall|i: int| 0 <= i < rows.len() ==> #[trigger] row_from_some_stock(rows[i], stocks, quotes, n)
}

/// A stock folded into the summary adds at most its own row.
proof fn lemma_step_rows(s: SummaryModel, stock: StockConfig, quote: Option<QuoteSnapshot>)
    ensures
        summary_step(s, stock, quote).rows == s.rows || (stock.position matches Some(p)
            && quote matches Some(q) && position_pnl(q, p) matches PnlModel::Computed {
            market_value,
            cost_basis,
            profit,
            return_percent,
        } && summary_step(s, stock, quote).rows == s.rows.push(
            RowModel {
                symbol: trim(stock.symbol@),
                short_name: trim(stock.short_name@),
                currency: currency_key_model(stock.currency@),
                market_value,
                cost_basis,
                profit,
                return_percent,
            },
        )),
{
}

/// Every row of a summary is the profit and loss of one of the stocks.
proof fn lemma_rows_come_from_stocks(
    stocks: Seq<StockConfig>,
    quotes: Seq<Option<QuoteSnapshot>>,
    n: int,
)
    requires
        0 <= n <= stocks.len(),
    ensures
        rows_from_stocks(summary_model(stocks, quotes, n).rows, stocks, quotes, n),
    decreases n,
{
    if n > 0 {
        lemma_rows_come_from_stocks(stocks, quotes, n - 1);
        let s = summary_model(stocks, quotes, n - 1);
        let s2 = summary_model(stocks, quotes, n);
        lemma_step_rows(s, stocks[n - 1], quote_at(quotes, n - 1));
        assert forall|i: int| 0 <= i < s2.rows.len() implies #[trigger] row_from_some_stock(
            s2.rows[i],
            stocks,
            quotes,
            n,
        ) by {
            if i < s.rows.len() {
                assert(s2.rows[i] == s.rows[i]);
                assert(row_from_some_stock(s.rows[i], stocks, quotes, n - 1));
                let k = choose|k: int| 0 <= k < n - 1 && row_of_stock(s.rows[i], stocks, quotes, k);
                assert(row_of_stock(s2.rows[i], stocks, quotes, k));
            } else {
                assert(row_of_stock(s2.rows[i], stocks, quotes, n - 1));
            }
        }
    }
}

/// What a portfolio summary adds up to: every row is the profit and loss of one
/// stock with a position and a quote (market value = last price × quantity, cost
/// basis = average cost × quantity, profit their difference, return the profit over
/// the cost basis × 100), and each currency's total is the sum, in order, of the
/// market values, of the cost bases and of the profits of exactly the rows in that
/// currency.
pub proof fn lemma_summary_adds_up(
    stocks: Seq<StockConfig>,
    quotes: Seq<Option<QuoteSnapshot>>,
    n: int,
)
    requires
        0 <= n <= stocks.len(),
    ensures
        rows_from_stocks(summary_model(stocks, quotes, n).rows, stocks, quotes, n),
        forall|t: int|
            0 <= t < summary_model(stocks, quotes, n).totals.len() ==> total_matches_rows(
                summary_model(stocks, quotes, n).rows,
                #[trigger] summary_model(stocks, quotes, n).totals[t],
            ),
    decreases n,
{
    lemma_rows_come_from_stocks(stocks, quotes, n);
    if n > 0 {
        lemma_summary_adds_up(stocks, quotes, n - 1);
        lemma_summary_accounts_for_every_position(stocks, quotes, n - 1);
        let s = summary_model(stocks, quotes, n - 1);
        let s2 = summary_model(stocks, quotes, n);
        let stock = stocks[n - 1];
        if let Some(p) = stock.position {
            if let Some(q) = quote_at(quotes, n - 1) {
                if let PnlModel::Computed { market_value, cost_basis, profit, return_percent } =
                    position_pnl(q, p) {
                    let currency = currency_key_model(stock.currency@);
                    let row = RowModel {
                        symbol: trim(stock.symbol@),
                        short_name: trim(stock.short_name@),
                        currency,
                        market_value,
                        cost_basis,
                        profit,
                        return_percent,
                    };
                    if s2.rows.len() > s.rows.len() {
                        assert(s2.rows == s.rows.push(row));
                        match total_index(s.totals, currency) {
                            None => {
                                assert forall|i: int| 0 <= i < s.rows.len() implies (
                                #[trigger] s.rows[i]).currency != currency by {
                                    assert(has_total(s.totals, s.rows[i].currency));
                                    let t = choose|t: int|
                                        0 <= t < s.totals.len() && s.totals[t].currency
                                            == s.rows[i].currency;
                                    assert(!(0 <= t < s.totals.len() && s.totals[t].currency
                                        == currency));
                                }
                                lemma_rows_in_absent_currency(s.rows, currency);
                                assert forall|t: int| 0 <= t < s2.totals.len() implies total_matches_rows(
                                    s2.rows,
                                    #[trigger] s2.totals[t],
                                ) by {
                                    let c = s2.totals[t].currency;
                                    lemma_rows_in_currency_push(s.rows, row, c);
                                    if t == s.totals.len() as int {
                                        let mine = rows_in_currency(s2.rows, c);
                                        assert(mine =~= seq![row]);
                                        assert(market_values(mine) =~= seq![market_value]);
                                        assert(cost_bases(mine) =~= seq![cost_basis]);
                                        assert(profits(mine) =~= seq![profit]);
                                    } else {
                                        assert(s2.totals[t] == s.totals[t]);
                                        assert(c != currency);
                                    }
                                }
                            },
                            Some(t0) => {
                                assert(0 <= t0 < s.totals.len() && s.totals[t0].currency
                                    == currency);
                                let old = s.totals[t0];
                                assert forall|t: int| 0 <= t < s2.totals.len() implies total_matches_rows(
                                    s2.rows,
                                    #[trigger] s2.totals[t],
                                ) by {
                                    let c = s2.totals[t].currency;
                                    lemma_rows_in_currency_push(s.rows, row, c);
                                    if t == t0 {
                                        assert(total_matches_rows(s.rows, s.totals[t0]));
                                        let before = rows_in_currency(s.rows, currency);
                                        let mine = rows_in_currency(s2.rows, currency);
                                        assert(mine == before.push(row));
                                        assert(market_values(mine) =~= market_values(before).push(
                                            market_value,
                                        ));
                                        assert(cost_bases(mine) =~= cost_bases(before).push(
                                            cost_basis,
                                        ));
                                        assert(profits(mine) =~= profits(before).push(profit));
                                        lemma_running_sum_push(market_values(before), market_value);
                                        lemma_running_sum_push(cost_bases(before), cost_basis);
                                        lemma_running_sum_push(profits(before), profit);
                                    } else {
                                        assert(s2.totals[t] == s.totals[t]);
                                        assert(s.totals[t].currency != s.totals[t0].currency);
                                    }
                                }
                            },
                        }
                    }
                }
            }
        }
    }
}

/// A currency code trimmed and uppercased, "—" when blank.
pub fn currency_key(currency: &str) -> (r: String)
    ensures
        r@ == currency_key_model(currency@),
{
    let t = trimmed_of(currency);
    if t.len() == 0 {
        String::from_str("—")
    } else {
        string_of(&uppercased(&t))
    }
}

/// Profit ÷ cost basis × 100, zero for a zero cost basis.
fn percent_of(profit: Decimal, cost_basis: Decimal) -> (r: Decimal)
    ensures
        r@ == total_return(profit@, cost_basis@),
{
    if cost_basis.is_zero() {
        return Decimal::zero();
    }
    match checked_div(profit, cost_basis) {
        Some(ratio) => match checked_mul(ratio, Decimal::one_hundred()) {
            Some(p) => p,
            None => Decimal::zero(),
        },
        None => Decimal::zero(),
    }
}

/// The position of the total in `currency`.
fn find_total(totals: &Vec<PortfolioTotal>, currency: &Vec<char>) -> (r: Option<usize>)
    requires
        distinct_currencies(totals@.map_values(|t: PortfolioTotal| total_model(t))),
    ensures
        r matches Some(i) ==> total_index(
            totals@.map_values(|t: PortfolioTotal| total_model(t)),
            currency@,
        ) == Some(i as int) && i < totals@.len(),
        r is None ==> total_index(
            totals@.map_values(|t: PortfolioTotal| total_model(t)),
            currency@,
        ) is None,
{
    let ghost models = totals@.map_values(|t: PortfolioTotal| total_model(t));
    let mut i: usize = 0;
    while i < totals.len()
        invariant
            i <= totals@.len(),
            models == totals@.map_values(|t: PortfolioTotal| total_model(t)),
            distinct_currencies(models),
            forall|j: int| 0 <= j < i ==> models[j].currency != currency@,
        decreases totals.len() - i,
    {
        let c = chars_of(totals[i].currency.as_str());
        if same_chars(&c, currency) {
            proof {
                assert(models[i as int].currency == currency@);
                let k = choose|k: int| 0 <= k < models.len() && models[k].currency == currency@;
                if k != i {
                    assert(models[k].currency != models[i as int].currency);
                }
            }
            return Some(i);
        }
        i += 1;
    }
    None
}

/// Sums the positions of the stocks per currency; `quotes[i]` is the current quote of
/// `stocks[i]`, if any.
///
/// Rows follow the configuration order; totals follow the first appearance of each
/// currency, and each total's return is its profit over its cost basis.
pub fn summarize_portfolio(stocks: &Vec<StockConfig>, quotes: &Vec<Option<QuoteSnapshot>>) -> (r: PortfolioSummary)
    ensures
        r.rows@.map_values(|x: PositionRow| row_model(x)) == summary_model(
            stocks@,
            quotes@,
            stocks@.len() as int,
        ).rows,
        r.totals@.map_values(|t: PortfolioTotal| total_model(t)) == summary_model(
            stocks@,
            quotes@,
            stocks@.len() as int,
        ).totals,
        r.missing_quotes == summary_model(stocks@, quotes@, stocks@.len() as int).missing,
        forall|i: int|
            0 <= i < r.totals@.len() ==> r.totals@[i].return_percent@ == total_return(
                r.totals@[i].unrealized_profit@,
                r.totals@[i].cost_basis@,
            ),
        r.rows@.len() + r.missing_quotes == positions_count(stocks@, stocks@.len() as int),
        distinct_currencies(summary_model(stocks@, quotes@, stocks@.len() as int).totals),
{
    let mut rows: Vec<PositionRow> = Vec::new();
    let mut totals: Vec<PortfolioTotal> = Vec::new();
    let mut missing_quotes: usize = 0;
    let mut i: usize = 0;
    while i < stocks.len()
        invariant
            i <= stocks@.len(),
            rows@.map_values(|x: PositionRow| row_model(x)) == summary_model(
                stocks@,
                quotes@,
                i as int,
            ).rows,
            totals@.map_values(|t: PortfolioTotal| total_model(t)) == summary_model(
                stocks@,
                quotes@,
                i as int,
            ).totals,
            missing_quotes == summary_model(stocks@, quotes@, i as int).missing,
            rows@.len() + missing_quotes == positions_count(stocks@, i as int),
            positions_count(stocks@, i as int) <= i,
            distinct_currencies(summary_model(stocks@, quotes@, i as int).totals),
        decreases stocks.len() - i,
    {
        proof {
            lemma_summary_accounts_for_every_position(stocks@, quotes@, i + 1);
        }
        let ghost before_rows = rows@;
        let ghost before_totals = totals@;
        let stock = &stocks[i];
        let quote: Option<&QuoteSnapshot> = if i < quotes.len() {
            match &quotes[i] {
                Some(q) => Some(q),
                None => None,
            }
        } else {
            None
        };
        if let Some(position) = &stock.position {
            match quote {
                None => {
                    missing_quotes += 1;
                },
                Some(q) => {
                    match calculate_position(q, position) {
                        Err(_) => {
                            missing_quotes += 1;
                        },
                        Ok(pnl) => {
                            let currency = currency_key(stock.currency.as_str());
                            let currency_chars = chars_of(currency.as_str());
                            let symbol = string_of(&trimmed_of(stock.symbol.as_str()));
                            let short_name = string_of(&trimmed_of(stock.short_name.as_str()));
                            match find_total(&totals, &currency_chars) {
                                None => {
                                    totals.push(
                                        PortfolioTotal {
                                            currency: string_of(&currency_chars),
                                            market_value: pnl.market_value,
                                            cost_basis: pnl.cost_basis,
                                            unrealized_profit: pnl.unrealized_profit,
                                            return_percent: Decimal::zero(),
                                        },
                                    );
                                    rows.push(
                                        PositionRow {
                                            symbol,
                                            short_name,
                                            currency,
                                            market_value: pnl.market_value,
                                            cost_basis: pnl.cost_basis,
                                            unrealized_profit: pnl.unrealized_profit,
                                            return_percent: pnl.return_percent,
                                        },
                                    );
                                    proof {
                                        assert(rows@.map_values(|x: PositionRow| row_model(x))
                                            =~= before_rows.map_values(
                                            |x: PositionRow| row_model(x),
                                        ).push(row_model(rows@.last())));
                                        assert(totals@.map_values(
                                            |t: PortfolioTotal| total_model(t),
                                        ) =~= before_totals.map_values(
                                            |t: PortfolioTotal| total_model(t),
                                        ).push(total_model(totals@.last())));
                                    }
                                },
                                Some(t) => {
                                    let mv = checked_add(totals[t].market_value, pnl.market_value);
                                    let cb = checked_add(totals[t].cost_basis, pnl.cost_basis);
                                    let pf = checked_add(
                                        totals[t].unrealized_profit,
                                        pnl.unrealized_profit,
                                    );
                                    match (mv, cb, pf) {
                                        (Some(mv), Some(cb), Some(pf)) => {
                                            let updated = PortfolioTotal {
                                                currency: string_of(&currency_chars),
                                                market_value: mv,
                                                cost_basis: cb,
                                                unrealized_profit: pf,
                                                return_percent: Decimal::zero(),
                                            };
                                            totals.set(t, updated);
                                            rows.push(
                                                PositionRow {
                                                    symbol,
                                                    short_name,
                                                    currency,
                                                    market_value: pnl.market_value,
                                                    cost_basis: pnl.cost_basis,
                                                    unrealized_profit: pnl.unrealized_profit,
                                                    return_percent: pnl.return_percent,
                                                },
                                            );
                                            proof {
                                                assert(rows@.map_values(
                                                    |x: PositionRow| row_model(x),
                                                ) =~= before_rows.map_values(
                                                    |x: PositionRow| row_model(x),
                                                ).push(row_model(rows@.last())));
                                                assert(totals@.map_values(
                                                    |t: PortfolioTotal| total_model(t),
                                                ) =~= before_totals.map_values(
                                                    |t: PortfolioTotal| total_model(t),
                                                ).update(t as int, total_model(updated)));
                                            }
                                        },
                                        _ => {
                                            missing_quotes += 1;
                                        },
                                    }
                                },
                            }
                        },
                    }
                },
            }
        }
        i += 1;
    }
    let mut k: usize = 0;
    while k < totals.len()
        invariant
            k <= totals@.len(),
            totals@.map_values(|t: PortfolioTotal| total_model(t)) == summary_model(
                stocks@,
                quotes@,
                stocks@.len() as int,
            ).totals,
            forall|j: int|
                0 <= j < k ==> totals@[j].return_percent@ == total_return(
                    totals@[j].unrealized_profit@,
                    totals@[j].cost_basis@,
                ),
        decreases totals.len() - k,
    {
        let ghost before = totals@;
        let percent = percent_of(totals[k].unrealized_profit, totals[k].cost_basis);
        let old_total = &totals[k];
        let updated = PortfolioTotal {
            currency: string_of(&chars_of(old_total.currency.as_str())),
            market_value: old_total.market_value,
            cost_basis: old_total.cost_basis,
            unrealized_profit: old_total.unrealized_profit,
            return_percent: percent,
        };
        totals.set(k, updated);
        proof {
            assert(totals@.map_values(|t: PortfolioTotal| total_model(t)) =~= before.map_values(
                |t: PortfolioTotal| total_model(t),
            ));
        }
        k += 1;
    }
    PortfolioSummary { rows, totals, missing_quotes }
}

} // verus!
