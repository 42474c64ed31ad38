//! The latest quote of each configured symbol, kept between refreshes: a refresh
//! forgets the symbols no longer configured and stores what arrived, and each stock
//! finds its quote under its trimmed symbol.

use vstd::prelude::*;

use crate::config::StockConfig;
use crate::domain::QuoteSnapshot;
use crate::provider::ProviderUpdate;
use crate::text::{chars_of, same_chars, trim, trimmed_of};

verus! {

/// The quotes of a list of (symbol, quote) entries: a later entry for a symbol wins.
pub open spec fn quote_map(es: Seq<(String, ProviderUpdate)>) -> Map<Seq<char>, ProviderUpdate>
    decreases es.len(),
{
    if es.len() == 0 {
        Map::empty()
    } else {
        quote_map(es.drop_last()).insert(es.last().0@, es.last().1)
    }
}

/// `m` with the quotes of `ups` stored in order, a later one for a symbol winning.
pub open spec fn with_quotes(
    m: Map<Seq<char>, ProviderUpdate>,
    ups: Seq<(String, ProviderUpdate)>,
) -> Map<Seq<char>, ProviderUpdate>
    decreases ups.len(),
{
    if ups.len() == 0 {
        m
    } else {
        with_quotes(m, ups.drop_last()).insert(ups.last().0@, ups.last().1)
    }
}

/// The trimmed symbols of the stocks.
pub open spec fn configured_symbols(stocks: Seq<StockConfig>) -> Set<Seq<char>> {
    Set::new(
        |k: Seq<char>| exists|i: int| 0 <= i < stocks.len() && trim((#[trigger] stocks[i]).symbol@) == k,
    )
}

/// The quote stored under `symbol`, if any.
pub open spec fn cached(m: Map<Seq<char>, ProviderUpdate>, symbol: Seq<char>) -> Option<ProviderUpdate> {
    if m.contains_key(symbol) {
        Some(m[symbol])
    } else {
        None
    }
}

/// The quote snapshot stored under `symbol`, if any.
pub open spec fn cached_quote(m: Map<Seq<char>, ProviderUpdate>, symbol: Seq<char>) -> Option<QuoteSnapshot> {
    if m.contains_key(symbol) {
        Some(m[symbol].quote)
    } else {
        None
    }
}

/// The entries whose symbol is in `keep`, in order.
pub open spec fn entries_in(es: Seq<(String, ProviderUpdate)>, keep: Set<Seq<char>>) -> Seq<
    (String, ProviderUpdate),
>
    decreases es.len(),
{
    if es.len() == 0 {
        Seq::empty()
    } else {
        let w = entries_in(es.drop_last(), keep);
        if keep.contains(es.last().0@) {
            w.push(es.last())
        } else {
            w
        }
    }
}

/// Keeping the entries of some symbols keeps exactly their quotes.
proof fn lemma_entries_in(es: Seq<(String, ProviderUpdate)>, keep: Set<Seq<char>>)
    ensures
        quote_map(entries_in(es, keep)) =~= quote_map(es).restrict(keep),
    decreases es.len(),
{
    if es.len() > 0 {
        let w = entries_in(es.drop_last(), keep);
        lemma_entries_in(es.drop_last(), keep);
        if keep.contains(es.last().0@) {
            assert(w.push(es.last()).drop_last() =~= w);
        }
    }
}

/// The quote found for `k` is that of its last entry.
proof fn lemma_last_quote(es: Seq<(String, ProviderUpdate)>, k: Seq<char>, i: int)
    requires
        -1 <= i < es.len(),
        i >= 0 ==> es[i].0@ == k,
        forall|j: int| i < j < es.len() ==> (#[trigger] es[j]).0@ != k,
    ensures
        i >= 0 ==> quote_map(es).contains_key(k) && quote_map(es)[k] == es[i].1,
        i < 0 ==> !quote_map(es).contains_key(k),
    decreases es.len(),
{
    if es.len() > 0 && i != es.len() - 1 {
        assert forall|j: int| i < j < es.drop_last().len() implies (#[trigger] es.drop_last()[j]).0@
            != k by {
            assert(es.drop_last()[j] == es[j]);
        }
        assert(es.last() == es[es.len() - 1]);
        lemma_last_quote(es.drop_last(), k, i);
        if i >= 0 {
            assert(es.drop_last()[i] == es[i]);
        }
    }
}

/// A copy of an optional text.
fn copy_text(t: &Option<String>) -> (r: Option<String>)
    ensures
        r == *t,
{
    match t {
        Some(s) => Some(s.clone()),
        None => None,
    }
}

/// A copy of a quote snapshot.
fn copy_quote(q: &QuoteSnapshot) -> (r: QuoteSnapshot)
    ensures
        r == *q,
{
    QuoteSnapshot {
        symbol: copy_text(&q.symbol),
        short_name: copy_text(&q.short_name),
        last_price: q.last_price,
        previous_close: q.previous_close,
        day_high: q.day_high,
        day_low: q.day_low,
        currency: q.currency.clone(),
        timestamp: q.timestamp,
        updated_time: copy_text(&q.updated_time),
    }
}

/// A copy of a quote with its market state.
fn copy_update(u: &ProviderUpdate) -> (r: ProviderUpdate)
    ensures
        r == *u,
{
    ProviderUpdate { quote: copy_quote(&u.quote), connection: u.connection }
}

/// Whether `symbol` is the trimmed symbol of one of the stocks.
fn is_configured(stocks: &Vec<StockConfig>, symbol: &str) -> (r: bool)
    ensures
        r == configured_symbols(stocks@).contains(symbol@),
{
    let key = chars_of(symbol);
    let mut k: usize = 0;
    while k < stocks.len()
        invariant
            k <= stocks@.len(),
            key@ == symbol@,
            forall|j: int| 0 <= j < k ==> trim((#[trigger] stocks@[j]).symbol@) != symbol@,
        decreases stocks.len() - k,
    {
        if same_chars(&trimmed_of(stocks[k].symbol.as_str()), &key) {
            assert(trim(stocks@[k as int].symbol@) == symbol@);
            return true;
        }
        k += 1;
    }
    false
}

/// The latest quote of each symbol.
#[derive(Debug)]
pub struct QuoteCache {
    entries: Vec<(String, ProviderUpdate)>,
}

impl View for QuoteCache {
    type V = Map<Seq<char>, ProviderUpdate>;

    closed spec fn view(&self) -> Map<Seq<char>, ProviderUpdate> {
        quote_map(self.entries@)
    }
}

impl QuoteCache {
    /// An empty cache.
    pub fn new() -> (r: QuoteCache)
        ensures
            r@ == Map::<Seq<char>, ProviderUpdate>::empty(),
    {
        QuoteCache { entries: Vec::new() }
    }

    /// Whether no quote is stored.
    pub fn is_empty(&self) -> (r: bool)
        ensures
            r <==> self@ == Map::<Seq<char>, ProviderUpdate>::empty(),
    {
        if self.entries.len() == 0 {
            true
        } else {
            proof {
                let es = self.entries@;
                assert(self@.contains_key(es.last().0@));
                assert(!Map::<Seq<char>, ProviderUpdate>::empty().contains_key(es.last().0@));
            }
            false
        }
    }

    /// The position of the last entry of `key`, if any.
    fn find(&self, key: &Vec<char>) -> (r: Option<usize>)
        ensures
            r matches Some(i) ==> i < self.entries@.len() && self@.contains_key(key@) && self@[key@]
                == self.entries@[i as int].1,
            r is None ==> !self@.contains_key(key@),
    {
        let mut i: usize = self.entries.len();
        while i > 0
            invariant
                i <= self.entries@.len(),
                forall|j: int| i <= j < self.entries@.len() ==> (#[trigger] self.entries@[j]).0@ != key@,
            decreases i,
        {
            if same_chars(&chars_of(self.entries[i - 1].0.as_str()), key) {
                proof {
                    lemma_last_quote(self.entries@, key@, i - 1);
                }
                return Some(i - 1);
            }
            i -= 1;
        }
        proof {
            lemma_last_quote(self.entries@, key@, -1);
        }
        None
    }

    /// Forgets the entries of the symbol `removed`.
    fn forget_symbol(&mut self, removed: &Vec<char>)
        ensures
            final(self)@ == old(self)@.remove(removed@),
    {
        let mut kept: Vec<(String, ProviderUpdate)> = Vec::new();
        let mut rest: Vec<(String, ProviderUpdate)> = Vec::new();
        std::mem::swap(&mut rest, &mut self.entries);
        let ghost es = rest@;
        let ghost keep = Set::new(|k: Seq<char>| k != removed@);
        let n = rest.len();
        let mut i: usize = 0;
        assert(es.subrange(0, n as int) =~= es);
        while i < n
            invariant
                i <= n == es.len(),
                keep == Set::new(|k: Seq<char>| k != removed@),
                rest@ == es.subrange(i as int, n as int),
                kept@ == entries_in(es.take(i as int), keep),
            decreases n - i,
        {
            let e = rest.remove(0);
            assert(e == es[i as int]);
            assert(rest@ =~= es.subrange(i + 1, n as int));
            assert(es.take(i + 1).drop_last() =~= es.take(i as int));
            assert(es.take(i + 1).last() == es[i as int]);
            if !same_chars(&chars_of(e.0.as_str()), removed) {
                kept.push(e);
            }
            i += 1;
        }
        assert(es.take(n as int) =~= es);
        proof {
            lemma_entries_in(es, keep);
            assert(quote_map(es).restrict(keep) =~= quote_map(es).remove(removed@));
        }
        self.entries = kept;
    }

    /// Forgets the symbols that are not the trimmed symbol of a stock.
    pub fn retain_stocks(&mut self, stocks: &Vec<StockConfig>)
        ensures
            final(self)@ == old(self)@.restrict(configured_symbols(stocks@)),
    {
        let mut kept: Vec<(String, ProviderUpdate)> = Vec::new();
        let mut rest: Vec<(String, ProviderUpdate)> = Vec::new();
        std::mem::swap(&mut rest, &mut self.entries);
        let ghost es = rest@;
        let ghost keep = configured_symbols(stocks@);
        let n = rest.len();
        let mut i: usize = 0;
        assert(es.subrange(0, n as int) =~= es);
        while i < n
            invariant
                i <= n == es.len(),
                keep == configured_symbols(stocks@),
                rest@ == es.subrange(i as int, n as int),
                kept@ == entries_in(es.take(i as int), keep),
            decreases n - i,
        {
            let e = rest.remove(0);
            assert(e == es[i as int]);
            assert(rest@ =~= es.subrange(i + 1, n as int));
            assert(es.take(i + 1).drop_last() =~= es.take(i as int));
            assert(es.take(i + 1).last() == es[i as int]);
            if is_configured(stocks, e.0.as_str()) {
                kept.push(e);
            }
            i += 1;
        }
        assert(es.take(n as int) =~= es);
        proof {
            lemma_entries_in(es, keep);
        }
        self.entries = kept;
    }

    /// Stores `update` under `symbol`, replacing what was stored there.
    pub fn insert(&mut self, symbol: String, update: ProviderUpdate)
        ensures
            final(self)@ == old(self)@.insert(symbol@, update),
    {
        let key = chars_of(symbol.as_str());
        self.forget_symbol(&key);
        let ghost before = self.entries@;
        let ghost s = symbol;
        let ghost u = update;
        self.entries.push((symbol, update));
        proof {
            assert(self.entries@.drop_last() =~= before);
            assert(self.entries@.last() == (s, u));
            assert(old(self)@.remove(s@).insert(s@, u) =~= old(self)@.insert(s@, u));
        }
    }

    /// A refresh: the symbols no longer configured are forgotten, then the quotes
    /// that arrived are stored in order.
    pub fn refresh(&mut self, stocks: &Vec<StockConfig>, updates: Vec<(String, ProviderUpdate)>)
        ensures
            final(self)@ == with_quotes(old(self)@.restrict(configured_symbols(stocks@)), updates@),
    {
        self.retain_stocks(stocks);
        let ghost base = self@;
        let ghost ups = updates@;
        let mut rest = updates;
        let n = rest.len();
        let mut i: usize = 0;
        assert(ups.subrange(0, n as int) =~= ups);
        while i < n
            invariant
                i <= n == ups.len(),
                rest@ == ups.subrange(i as int, n as int),
                self@ == with_quotes(base, ups.take(i as int)),
            decreases n - i,
        {
            let (symbol, update) = rest.remove(0);
            assert((symbol, update) == ups[i as int]);
            assert(rest@ =~= ups.subrange(i + 1, n as int));
            assert(ups.take(i + 1).drop_last() =~= ups.take(i as int));
            assert(ups.take(i + 1).last() == ups[i as int]);
            self.insert(symbol, update);
            i += 1;
        }
        assert(ups.take(n as int) =~= ups);
    }

    /// The quote of each stock, under its trimmed symbol.
    pub fn aligned_updates(&self, stocks: &Vec<StockConfig>) -> (r: Vec<Option<ProviderUpdate>>)
        ensures
            r@.len() == stocks@.len(),
            forall|i: int|
                0 <= i < stocks@.len() ==> #[trigger] r@[i] == cached(self@, trim(stocks@[i].symbol@)),
    {
        let mut r: Vec<Option<ProviderUpdate>> = Vec::new();
        let mut k: usize = 0;
        while k < stocks.len()
            invariant
                k <= stocks@.len(),
                r@.len() == k,
                forall|i: int| 0 <= i < k ==> #[trigger] r@[i] == cached(self@, trim(stocks@[i].symbol@)),
            decreases stocks.len() - k,
        {
            let key = trimmed_of(stocks[k].symbol.as_str());
            match self.find(&key) {
                Some(p) => r.push(Some(copy_update(&self.entries[p].1))),
                None => r.push(None),
            }
            k += 1;
        }
        r
    }

    /// The quote snapshot of each stock, under its trimmed symbol.
    pub fn aligned_quotes(&self, stocks: &Vec<StockConfig>) -> (r: Vec<Option<QuoteSnapshot>>)
        ensures
            r@.len() == stocks@.len(),
            forall|i: int|
                0 <= i < stocks@.len() ==> #[trigger] r@[i] == cached_quote(self@, trim(stocks@[i].symbol@)),
    {
        let mut r: Vec<Option<QuoteSnapshot>> = Vec::new();
        let mut k: usize = 0;
        while k < stocks.len()
            invariant
                k <= stocks@.len(),
                r@.len() == k,
                forall|i: int|
                    0 <= i < k ==> #[trigger] r@[i] == cached_quote(self@, trim(stocks@[i].symbol@)),
            decreases stocks.len() - k,
        {
            let key = trimmed_of(stocks[k].symbol.as_str());
            match self.find(&key) {
                Some(p) => r.push(Some(copy_quote(&self.entries[p].1.quote))),
                None => r.push(None),
            }
            k += 1;
        }
        r
    }
}

} // verus!
