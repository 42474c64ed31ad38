//! Quote providers: a demo feed, an unfinished broker feed, and the parsing of the
//! Tencent quote and search responses.

use vstd::prelude::*;

use crate::clock::{
    calendar_julian_day, exchange_clock, exchange_instant, exchange_offset_seconds,
    is_calendar_date, local_julian_day, local_second_of_day, max_timestamp, min_timestamp,
    past_calendar_end_locally, unix_epoch_julian_day,
};
use crate::decimal::{all_digits, digits_value, nat_text, zero_pad};
use crate::config::StockConfig;
use crate::domain::{
    acceptable_input, count_text, domain_error_text, is_input_error, opt_text, parsed_input_ok,
    ConnectionState, DomainError, QuoteSnapshot,
};
use crate::text::{
    chars_of, extend_chars, has_prefix, is_space, joined, last_index, rfind_char, slice_chars,
    starts_with, string_of, symbol_key, symbol_key_of, trim_end, trim_start, upper, split_seq,
    split_chars, char_views, first_index, trim, trimmed_of,
};

verus! {

broadcast use vstd::string::group_string_axioms;

/// The largest response body accepted from the quote service, in bytes.
pub const MAX_RESPONSE_BYTES: usize = 64 * 1024;

/// The most characters a stock search may hold.
pub const MAX_SEARCH_QUERY_CHARS: usize = 32;

/// How many seconds a quote may lag behind the clock during a session before it
/// counts as delayed.
pub const MAX_QUOTE_STALENESS_SECS: i64 = 300;

/// A quote together with the market state of its stock.
#[derive(Clone, Debug)]
pub struct ProviderUpdate {
    pub quote: QuoteSnapshot,
    pub connection: ConnectionState,
}

/// The Tencent quote service: reading its symbols and responses. The requests
/// themselves are made by the application.
#[derive(Debug)]
pub struct TencentQuoteProvider;

/// Errors of the quote providers.
#[derive(Clone, Debug, PartialEq, Eq)]
pub enum ProviderError {
    NotConfigured,
    UnsupportedSymbol(String),
    InvalidSearchQuery,
    Network(String),
    HttpStatus(u16),
    ResponseTooLarge(usize),
    InvalidResponse(String),
    InvalidQuote(DomainError),
}

/// The message of a provider error.
pub open spec fn provider_error_text(e: ProviderError) -> Seq<char> {
    match e {
        ProviderError::NotConfigured => "quote provider is not configured"@,
        ProviderError::UnsupportedSymbol(s) => "unsupported stock symbol: "@ + s@,
        ProviderError::InvalidSearchQuery => "股票搜索内容过长"@,
        ProviderError::Network(m) => "quote request failed: "@ + m@,
        ProviderError::HttpStatus(status) => "quote request returned HTTP "@ + nat_text(
            status as nat,
        ),
        ProviderError::ResponseTooLarge(size) => "quote response exceeds 65536 bytes: "@
            + nat_text(size as nat),
        ProviderError::InvalidResponse(m) => "quote response is invalid: "@ + m@,
        ProviderError::InvalidQuote(e) => "provider returned invalid quote: "@
            + domain_error_text(e),
    }
}

impl ProviderError {
    /// The human-readable message of this error.
    pub fn message(&self) -> (r: String)
        ensures
            r@ == provider_error_text(*self),
    {
        match self {
            ProviderError::NotConfigured => String::from_str("quote provider is not configured"),
            ProviderError::UnsupportedSymbol(s) => joined(
                "unsupported stock symbol: ",
                s.as_str(),
            ),
            ProviderError::InvalidSearchQuery => String::from_str("股票搜索内容过长"),
            ProviderError::Network(m) => joined("quote request failed: ", m.as_str()),
            ProviderError::HttpStatus(status) => {
                let n = count_text(*status as usize);
                joined("quote request returned HTTP ", n.as_str())
            },
            ProviderError::ResponseTooLarge(size) => {
                let n = count_text(*size);
                joined("quote response exceeds 65536 bytes: ", n.as_str())
            },
            ProviderError::InvalidResponse(m) => joined("quote response is invalid: ", m.as_str()),
            ProviderError::InvalidQuote(e) => {
                let inner = e.message();
                joined("provider returned invalid quote: ", inner.as_str())
            },
        }
    }

    /// The provider error for a quote the domain rules refused.
    pub fn from_domain(e: DomainError) -> (r: ProviderError)
        ensures
            r == ProviderError::InvalidQuote(e),
    {
        ProviderError::InvalidQuote(e)
    }
}

/// A stock exchange served by the Tencent quote service.
#[derive(Clone, Copy, Debug, PartialEq, Eq, Structural)]
pub enum TencentMarket {
    Shanghai,
    Shenzhen,
    Beijing,
    HongKong,
}

/// The market a market code names (`SH`/`SS`, `SZ`, `BJ`, `HK`/`R_HK`).
pub open spec fn market_of_code(c: Seq<char>) -> Option<TencentMarket> {
    if c == seq!['S', 'H'] || c == seq!['S', 'S'] {
        Some(TencentMarket::Shanghai)
    } else if c == seq!['S', 'Z'] {
        Some(TencentMarket::Shenzhen)
    } else if c == seq!['B', 'J'] {
        Some(TencentMarket::Beijing)
    } else if c == seq!['H', 'K'] || c == seq!['R', '_', 'H', 'K'] {
        Some(TencentMarket::HongKong)
    } else {
        None
    }
}

/// The suffix of a market in a canonical symbol.
pub open spec fn market_suffix(m: TencentMarket) -> Seq<char> {
    match m {
        TencentMarket::Shanghai => seq!['S', 'H'],
        TencentMarket::Shenzhen => seq!['S', 'Z'],
        TencentMarket::Beijing => seq!['B', 'J'],
        TencentMarket::HongKong => seq!['H', 'K'],
    }
}

/// The prefix of a market in the quote service's symbols.
pub open spec fn market_prefix(m: TencentMarket) -> Seq<char> {
    match m {
        TencentMarket::Shanghai => seq!['s', 'h'],
        TencentMarket::Shenzhen => seq!['s', 'z'],
        TencentMarket::Beijing => seq!['b', 'j'],
        TencentMarket::HongKong => seq!['r', '_', 'h', 'k'],
    }
}

/// The name of a market as shown to the user.
pub open spec fn market_label(m: TencentMarket) -> Seq<char> {
    match m {
        TencentMarket::Shanghai => "沪市"@,
        TencentMarket::Shenzhen => "深市"@,
        TencentMarket::Beijing => "北交所"@,
        TencentMarket::HongKong => "港股"@,
    }
}

/// The currency a market trades in.
pub open spec fn market_currency(m: TencentMarket) -> Seq<char> {
    match m {
        TencentMarket::HongKong => "HKD"@,
        _ => "CNY"@,
    }
}

/// The continuous-trading sessions of a market, in minutes after local midnight
/// (UTC+8): each a start (inclusive) and an end (exclusive).
pub open spec fn market_sessions(m: TencentMarket) -> ((int, int), (int, int)) {
    match m {
        TencentMarket::HongKong => ((570, 720), (780, 960)),
        _ => ((570, 690), (780, 900)),
    }
}

/// Whether a minute of the day lies in a trading session of a market.
pub open spec fn in_session(m: TencentMarket, minutes: int) -> bool {
    let (a, b) = market_sessions(m);
    (a.0 <= minutes < a.1) || (b.0 <= minutes < b.1)
}

/// The trading hours, in minutes after local midnight with the end excluded: Hong
/// Kong trades 09:30–12:00 and 13:00–16:00, the mainland exchanges 09:30–11:30 and
/// 13:00–15:00.
pub proof fn lemma_trading_hours(m: TencentMarket, minutes: int)
    ensures
        m == TencentMarket::HongKong ==> (in_session(m, minutes) <==> (9 * 60 + 30 <= minutes
            < 12 * 60 || 13 * 60 <= minutes < 16 * 60)),
        m != TencentMarket::HongKong ==> (in_session(m, minutes) <==> (9 * 60 + 30 <= minutes
            < 11 * 60 + 30 || 13 * 60 <= minutes < 15 * 60)),
{
}

/// Whether `t` equals the two characters `a`, `b`.
fn is_pair(t: &Vec<char>, a: char, b: char) -> (r: bool)
    ensures
        r == (t@ == seq![a, b]),
{
    if t.len() == 2 && t[0] == a && t[1] == b {
        assert(t@ =~= seq![a, b]);
        true
    } else {
        false
    }
}

impl TencentMarket {
    /// The market a market code names.
    pub fn from_code(value: &Vec<char>) -> (r: Option<TencentMarket>)
        ensures
            r == market_of_code(value@),
    {
        if is_pair(value, 'S', 'H') || is_pair(value, 'S', 'S') {
            Some(TencentMarket::Shanghai)
        } else if is_pair(value, 'S', 'Z') {
            Some(TencentMarket::Shenzhen)
        } else if is_pair(value, 'B', 'J') {
            Some(TencentMarket::Beijing)
        } else if is_pair(value, 'H', 'K') {
            Some(TencentMarket::HongKong)
        } else if value.len() == 4 && value[0] == 'R' && value[1] == '_' && value[2] == 'H'
            && value[3] == 'K' {
            assert(value@ =~= seq!['R', '_', 'H', 'K']);
            Some(TencentMarket::HongKong)
        } else {
            proof {
                if value@ == seq!['R', '_', 'H', 'K'] {
                    assert(value@[0] == 'R' && value@[3] == 'K');
                }
            }
            None
        }
    }

    /// The suffix of the market in a canonical symbol.
    pub fn suffix(self) -> (r: Vec<char>)
        ensures
            r@ == market_suffix(self),
    {
        let r = match self {
            TencentMarket::Shanghai => vec!['S', 'H'],
            TencentMarket::Shenzhen => vec!['S', 'Z'],
            TencentMarket::Beijing => vec!['B', 'J'],
            TencentMarket::HongKong => vec!['H', 'K'],
        };
        assert(r@ =~= market_suffix(self));
        r
    }

    /// The prefix of the market in the quote service's symbols.
    pub fn provider_prefix(self) -> (r: Vec<char>)
        ensures
            r@ == market_prefix(self),
    {
        let r = match self {
            TencentMarket::Shanghai => vec!['s', 'h'],
            TencentMarket::Shenzhen => vec!['s', 'z'],
            TencentMarket::Beijing => vec!['b', 'j'],
            TencentMarket::HongKong => vec!['r', '_', 'h', 'k'],
        };
        assert(r@ =~= market_prefix(self));
        r
    }

    /// The name of the market as shown to the user.
    pub fn label(self) -> (r: &'static str)
        ensures
            r@ == market_label(self),
    {
        match self {
            TencentMarket::Shanghai => "沪市",
            TencentMarket::Shenzhen => "深市",
            TencentMarket::Beijing => "北交所",
            TencentMarket::HongKong => "港股",
        }
    }

    /// The currency the market trades in.
    pub fn currency(self) -> (r: &'static str)
        ensures
            r@ == market_currency(self),
    {
        match self {
            TencentMarket::HongKong => "HKD",
            _ => "CNY",
        }
    }

    /// The continuous-trading sessions, in minutes after local midnight (UTC+8): each a
    /// start (inclusive) and an end (exclusive).
    pub fn trading_sessions(self) -> (r: [(u16, u16); 2])
        ensures
            ({
                let (morning, afternoon) = market_sessions(self);
                &&& r@[0].0 == morning.0 && r@[0].1 == morning.1
                &&& r@[1].0 == afternoon.0 && r@[1].1 == afternoon.1
            }),
    {
        match self {
            TencentMarket::HongKong => [(570, 720), (780, 960)],
            _ => [(570, 690), (780, 900)],
        }
    }

    /// Whether a minute of the day lies in one of the market's trading sessions.
    pub fn in_session(self, minutes: u32) -> (r: bool)
        ensures
            r == in_session(self, minutes as int),
    {
        let sessions = self.trading_sessions();
        let (a_start, a_end) = sessions[0];
        let (b_start, b_end) = sessions[1];
        (a_start as u32 <= minutes && minutes < a_end as u32) || (b_start as u32 <= minutes
            && minutes < b_end as u32)
    }
}

/// The market and code that follow a market prefix (`R_HK`, `SH`, `SS`, `SZ`, `BJ`,
/// `HK`, tried in that order) of a symbol without a dot.
pub open spec fn prefix_parts(n: Seq<char>) -> Option<(TencentMarket, Seq<char>)> {
    if has_prefix(n, seq!['R', '_', 'H', 'K']) {
        Some((TencentMarket::HongKong, n.subrange(4, n.len() as int)))
    } else if has_prefix(n, seq!['S', 'H']) || has_prefix(n, seq!['S', 'S']) {
        Some((TencentMarket::Shanghai, n.subrange(2, n.len() as int)))
    } else if has_prefix(n, seq!['S', 'Z']) {
        Some((TencentMarket::Shenzhen, n.subrange(2, n.len() as int)))
    } else if has_prefix(n, seq!['B', 'J']) {
        Some((TencentMarket::Beijing, n.subrange(2, n.len() as int)))
    } else if has_prefix(n, seq!['H', 'K']) {
        Some((TencentMarket::HongKong, n.subrange(2, n.len() as int)))
    } else {
        None
    }
}

/// The market and raw code of a normalized symbol: a code before the last dot and a
/// market code after it, or else a market prefix before the code.
pub open spec fn symbol_parts(n: Seq<char>) -> Option<(TencentMarket, Seq<char>)> {
    match last_index(n, '.') {
        Some(i) => match market_of_code(n.subrange(i + 1, n.len() as int)) {
            Some(m) => Some((m, n.subrange(0, i))),
            None => None,
        },
        None => prefix_parts(n),
    }
}

/// The code of a market in its normal form: a Hong Kong code of at most five digits
/// padded with zeros to five, a mainland code of exactly six digits.
pub open spec fn normalized_code(m: TencentMarket, code: Seq<char>) -> Option<Seq<char>> {
    if code.len() == 0 || !all_digits(code) {
        None
    } else if m == TencentMarket::HongKong {
        if code.len() <= 5 {
            Some(zero_pad(code, 5))
        } else {
            None
        }
    } else if code.len() == 6 {
        Some(code)
    } else {
        None
    }
}

/// The market and normal code of a user's stock symbol (trimmed, case-insensitive),
/// if the quote service supports it.
pub open spec fn parsed_symbol(s: Seq<char>) -> Option<(TencentMarket, Seq<char>)> {
    match symbol_parts(symbol_key(s)) {
        Some((m, code)) => match normalized_code(m, code) {
            Some(c) => Some((m, c)),
            None => None,
        },
        None => None,
    }
}

/// The symbols of the stocks, as written.
pub open spec fn stock_symbols(stocks: Seq<StockConfig>) -> Seq<Seq<char>> {
    stocks.map_values(|s: StockConfig| s.symbol@)
}

/// The address of the quote request for stocks with these symbols: one request naming
/// the quote-service form of each symbol, in order, separated by commas; none when a
/// symbol is not supported.
pub open spec fn quote_request_text(symbols: Seq<Seq<char>>) -> Option<Seq<char>> {
    if forall|i: int| 0 <= i < symbols.len() ==> provider_symbol_of(#[trigger] symbols[i]) is Some {
        Some(
            "https://qt.gtimg.cn/q="@ + crate::text::join(
                symbols.map_values(|t: Seq<char>| provider_symbol_of(t)->0),
                ","@,
            ),
        )
    } else {
        None
    }
}

/// Two lists of stocks with the same symbols in the same order make the same quote
/// request, whatever their positions, names and currencies.
pub proof fn lemma_request_depends_on_symbols_alone(a: Seq<StockConfig>, b: Seq<StockConfig>)
    requires
        a.len() == b.len(),
        forall|i: int| 0 <= i < a.len() ==> (#[trigger] a[i]).symbol@ == b[i].symbol@,
    ensures
        quote_request_text(stock_symbols(a)) == quote_request_text(stock_symbols(b)),
{
    assert(stock_symbols(a) =~= stock_symbols(b));
}

/// The quote service's form of a user's symbol, if it is supported.
pub open spec fn provider_symbol_of(s: Seq<char>) -> Option<Seq<char>> {
    match parsed_symbol(s) {
        Some((m, c)) => Some(provider_text(m, c)),
        None => None,
    }
}

/// The canonical form of a symbol: `<code>.<market suffix>`.
pub open spec fn canonical_text(m: TencentMarket, code: Seq<char>) -> Seq<char> {
    code + seq!['.'] + market_suffix(m)
}

/// The quote service's form of a symbol: `<market prefix><code>`.
pub open spec fn provider_text(m: TencentMarket, code: Seq<char>) -> Seq<char> {
    market_prefix(m) + code
}

/// A stock symbol in normal form.
#[derive(Debug)]
pub struct NormalizedSymbol {
    pub market: TencentMarket,
    pub code: String,
}

/// Whether `r` is the outcome of reading symbol `s`.
pub open spec fn is_symbol_outcome(s: Seq<char>, r: Result<NormalizedSymbol, ProviderError>) -> bool {
    match parsed_symbol(s) {
        Some((m, c)) => r matches Ok(n) && n.market == m && n.code@ == c,
        None => r matches Err(ProviderError::UnsupportedSymbol(t)) && t@ == s,
    }
}

/// The raw market and code of a normalized symbol.
fn split_symbol(n: &Vec<char>) -> (r: Option<(TencentMarket, Vec<char>)>)
    ensures
        match symbol_parts(n@) {
            Some((m, code)) => r matches Some((rm, rc)) && rm == m && rc@ == code,
            None => r is None,
        },
{
    match rfind_char(n, '.') {
        Some(i) => {
            let market_code = slice_chars(n, i + 1, n.len());
            match TencentMarket::from_code(&market_code) {
                Some(m) => Some((m, slice_chars(n, 0, i))),
                None => None,
            }
        },
        None => {
            let rhk = vec!['R', '_', 'H', 'K'];
            let sh = vec!['S', 'H'];
            let ss = vec!['S', 'S'];
            let sz = vec!['S', 'Z'];
            let bj = vec!['B', 'J'];
            let hk = vec!['H', 'K'];
            assert(rhk@ =~= seq!['R', '_', 'H', 'K']);
            assert(sh@ =~= seq!['S', 'H']);
            assert(ss@ =~= seq!['S', 'S']);
            assert(sz@ =~= seq!['S', 'Z']);
            assert(bj@ =~= seq!['B', 'J']);
            assert(hk@ =~= seq!['H', 'K']);
            if starts_with(n, &rhk) {
                Some((TencentMarket::HongKong, slice_chars(n, 4, n.len())))
            } else if starts_with(n, &sh) || starts_with(n, &ss) {
                Some((TencentMarket::Shanghai, slice_chars(n, 2, n.len())))
            } else if starts_with(n, &sz) {
                Some((TencentMarket::Shenzhen, slice_chars(n, 2, n.len())))
            } else if starts_with(n, &bj) {
                Some((TencentMarket::Beijing, slice_chars(n, 2, n.len())))
            } else if starts_with(n, &hk) {
                Some((TencentMarket::HongKong, slice_chars(n, 2, n.len())))
            } else {
                None
            }
        },
    }
}

/// Whether every character is an ASCII digit.
fn digits_only(c: &Vec<char>) -> (r: bool)
    ensures
        r == all_digits(c@),
{
    let mut i: usize = 0;
    while i < c.len()
        invariant
            i <= c.len(),
            forall|j: int| 0 <= j < i ==> '0' <= #[trigger] c@[j] <= '9',
        decreases c.len() - i,
    {
        if !('0' <= c[i] && c[i] <= '9') {
            return false;
        }
        i += 1;
    }
    true
}

/// `code` left-padded with zeros to `width` characters.
fn pad_zeros(code: &Vec<char>, width: usize) -> (r: Vec<char>)
    ensures
        r@ == zero_pad(code@, width as nat),
{
    if code.len() >= width {
        return slice_chars(code, 0, code.len());
    }
    let mut r: Vec<char> = Vec::new();
    let fill = width - code.len();
    let mut i: usize = 0;
    while i < fill
        invariant
            i <= fill,
            fill == width - code.len(),
            r@ == Seq::new(i as nat, |k: int| '0'),
        decreases fill - i,
    {
        r.push('0');
        assert(r@ =~= Seq::new((i + 1) as nat, |k: int| '0'));
        i += 1;
    }
    extend_chars(&mut r, code);
    r
}

impl NormalizedSymbol {
    /// Reads a user's stock symbol: `01810.HK`, `1810.hk`, `600519.SS`, `sh600519`.
    pub fn parse(symbol: &str) -> (r: Result<NormalizedSymbol, ProviderError>)
        ensures
            is_symbol_outcome(symbol@, r),
    {
        let normalized = symbol_key_of(symbol);
        let (market, code) = match split_symbol(&normalized) {
            Some(parts) => parts,
            None => return Err(ProviderError::UnsupportedSymbol(String::from_str(symbol))),
        };
        if code.len() == 0 || !digits_only(&code) {
            return Err(ProviderError::UnsupportedSymbol(String::from_str(symbol)));
        }
        let code = match market {
            TencentMarket::HongKong => {
                if code.len() <= 5 {
                    pad_zeros(&code, 5)
                } else {
                    return Err(ProviderError::UnsupportedSymbol(String::from_str(symbol)));
                }
            },
            _ => {
                if code.len() == 6 {
                    code
                } else {
                    return Err(ProviderError::UnsupportedSymbol(String::from_str(symbol)));
                }
            },
        };
        Ok(NormalizedSymbol { market, code: string_of(&code) })
    }

    /// The quote service's form of the symbol.
    pub fn provider_symbol(&self) -> (r: String)
        ensures
            r@ == provider_text(self.market, self.code@),
    {
        let mut out = self.market.provider_prefix();
        let code = chars_of(self.code.as_str());
        extend_chars(&mut out, &code);
        string_of(&out)
    }

    /// The canonical form of the symbol.
    pub fn canonical_symbol(&self) -> (r: String)
        ensures
            r@ == canonical_text(self.market, self.code@),
    {
        let mut out = chars_of(self.code.as_str());
        out.push('.');
        let suffix = self.market.suffix();
        extend_chars(&mut out, &suffix);
        string_of(&out)
    }
}


/// A text without leading or trailing whitespace and without ASCII lowercase letters
/// is its own symbol key.
proof fn lemma_plain_key(t: Seq<char>)
    requires
        t.len() > 0,
        forall|j: int| 0 <= j < t.len() ==> !is_space(#[trigger] t[j]) && !('a' <= t[j] <= 'z'),
    ensures
        symbol_key(t) == t,
{
    assert(!is_space(t[0]));
    assert(trim_start(t) == t);
    assert(!is_space(t.last()));
    assert(trim_end(t) == t);
    assert(upper(t) =~= t);
}

/// A normal code is all digits, five of them in Hong Kong and six elsewhere.
proof fn lemma_normal_code_shape(m: TencentMarket, raw: Seq<char>, c: Seq<char>)
    requires
        normalized_code(m, raw) == Some(c),
    ensures
        all_digits(c),
        m == TencentMarket::HongKong ==> c.len() == 5,
        m != TencentMarket::HongKong ==> c.len() == 6,
        normalized_code(m, c) == Some(c),
{
    if m == TencentMarket::HongKong {
        let pad = Seq::new((5 - raw.len()) as nat, |k: int| '0');
        assert(c =~= pad + raw);
        assert forall|j: int| 0 <= j < c.len() implies '0' <= #[trigger] c[j] <= '9' by {
            if j < pad.len() {
                assert(c[j] == pad[j]);
            } else {
                assert(c[j] == raw[j - pad.len()]);
            }
        }
    }
}

/// The canonical text of a normal code reads back as the same market and code.
proof fn lemma_canonical_reads_back(m: TencentMarket, c: Seq<char>)
    requires
        normalized_code(m, c) == Some(c),
        all_digits(c),
    ensures
        parsed_symbol(canonical_text(m, c)) == Some((m, c)),
{
    let t = canonical_text(m, c);
    let suffix = market_suffix(m);
    assert forall|j: int| 0 <= j < t.len() implies !is_space(#[trigger] t[j]) && !('a' <= t[j]
        <= 'z') by {
        if j < c.len() {
            assert(t[j] == c[j]);
            assert('0' <= c[j] <= '9');
        } else if j == c.len() {
            assert(t[j] == '.');
        } else {
            assert(t[j] == suffix[j - c.len() - 1]);
        }
    }
    lemma_plain_key(t);
    assert(t[c.len() as int] == '.');
    assert forall|j: int| c.len() < j < t.len() implies t[j] != '.' by {
        assert(t[j] == suffix[j - c.len() - 1]);
    }
    crate::text::lemma_last_index(t, '.', c.len() as int);
    assert(t.subrange(c.len() as int + 1, t.len() as int) =~= suffix);
    assert(t.subrange(0, c.len() as int) =~= c);
}

/// The quote service's text of a normal code reads back as the same market and code.
proof fn lemma_provider_text_reads_back(m: TencentMarket, c: Seq<char>)
    requires
        normalized_code(m, c) == Some(c),
        all_digits(c),
    ensures
        parsed_symbol(provider_text(m, c)) == Some((m, c)),
{
    let t = provider_text(m, c);
    let p = market_prefix(m);
    let key = upper(t);
    assert forall|j: int| 0 <= j < t.len() implies !is_space(#[trigger] t[j]) by {
        if j < p.len() {
            assert(t[j] == p[j]);
        } else {
            assert(t[j] == c[j - p.len()]);
        }
    }
    assert(!is_space(t[0]));
    assert(trim_start(t) == t);
    assert(!is_space(t.last()));
    assert(trim_end(t) == t);
    assert(symbol_key(t) == key);
    let up = upper(p);
    assert(key =~= up + c) by {
        assert forall|j: int| 0 <= j < key.len() implies key[j] == (up + c)[j] by {
            if j >= p.len() {
                assert(t[j] == c[j - p.len()]);
                assert('0' <= c[j - p.len()] <= '9');
            }
        }
    }
    assert forall|j: int| 0 <= j < key.len() implies key[j] != '.' by {
        if j >= p.len() {
            assert(key[j] == c[j - p.len()]);
            assert('0' <= c[j - p.len()] <= '9');
        } else {
            assert(key[j] == up[j]);
        }
    }
    if exists|i: int| crate::text::is_last(key, '.', i) {
        let i = choose|i: int| crate::text::is_last(key, '.', i);
        assert(key[i] == '.');
    }
    assert(last_index(key, '.') is None);
    match m {
        TencentMarket::HongKong => {
            assert(up =~= seq!['R', '_', 'H', 'K']);
            assert(key.subrange(0, 4) =~= seq!['R', '_', 'H', 'K']);
            assert(key.subrange(4, key.len() as int) =~= c);
        },
        TencentMarket::Shanghai => {
            assert(up =~= seq!['S', 'H']);
            assert(key.subrange(0, 4)[0] == 'S');
            assert(key.subrange(0, 4)[1] == 'H');
            assert(key.subrange(0, 4) != seq!['R', '_', 'H', 'K']);
            assert(key.subrange(0, 2) =~= seq!['S', 'H']);
            assert(key.subrange(2, key.len() as int) =~= c);
        },
        TencentMarket::Shenzhen => {
            assert(up =~= seq!['S', 'Z']);
            assert(key.subrange(0, 4)[0] == 'S');
            assert(key.subrange(0, 4) != seq!['R', '_', 'H', 'K']);
            assert(key.subrange(0, 2) =~= seq!['S', 'Z']);
            assert(key.subrange(0, 2) != seq!['S', 'H']);
            assert(key.subrange(0, 2) != seq!['S', 'S']);
            assert(key.subrange(2, key.len() as int) =~= c);
        },
        TencentMarket::Beijing => {
            assert(up =~= seq!['B', 'J']);
            assert(key.subrange(0, 4)[0] == 'B');
            assert(key.subrange(0, 4) != seq!['R', '_', 'H', 'K']);
            assert(key.subrange(0, 2) =~= seq!['B', 'J']);
            assert(key.subrange(0, 2) != seq!['S', 'H']);
            assert(key.subrange(0, 2) != seq!['S', 'S']);
            assert(key.subrange(0, 2) != seq!['S', 'Z']);
            assert(key.subrange(2, key.len() as int) =~= c);
        },
    }
}

/// Symbols read back from their normal forms: the code of a supported symbol is all
/// ASCII digits, five of them in Hong Kong and six elsewhere, and the canonical form
/// (`01810.HK`) and the quote service's form (`r_hk01810`) name the same market and
/// code as the symbol itself. So canonicalizing is idempotent, and canonicalizing a
/// symbol before saving it does not change which quote it fetches.
pub proof fn lemma_symbol_forms_read_back(s: Seq<char>)
    ensures
        parsed_symbol(s) matches Some((m, c)) ==> {
            &&& crate::decimal::all_digits(c)
            &&& (m == TencentMarket::HongKong ==> c.len() == 5)
            &&& (m != TencentMarket::HongKong ==> c.len() == 6)
            &&& parsed_symbol(canonical_text(m, c)) == Some((m, c))
            &&& parsed_symbol(provider_text(m, c)) == Some((m, c))
        },
{
    if let Some((m, c)) = parsed_symbol(s) {
        let (m0, raw) = symbol_parts(symbol_key(s))->0;
        lemma_normal_code_shape(m, raw, c);
        lemma_canonical_reads_back(m, c);
        lemma_provider_text_reads_back(m, c);
    }
}


/// The digits after an optional leading `+`.
pub open spec fn unsigned_body(s: Seq<char>) -> Seq<char> {
    if s.len() > 0 && s[0] == '+' {
        s.drop_first()
    } else {
        s
    }
}

/// An unsigned integer as `str::parse` reads it: an optional `+` and one or more
/// ASCII digits, within `limit`.
pub open spec fn parsed_unsigned(s: Seq<char>, limit: nat) -> Option<nat> {
    let body = unsigned_body(s);
    if body.len() == 0 || !all_digits(body) || digits_value(body) > limit {
        None
    } else {
        Some(digits_value(body))
    }
}

/// A signed integer as `str::parse` reads it: an optional `+` or `-` and one or more
/// ASCII digits, from `-limit - 1` up to `limit`.
pub open spec fn parsed_signed(s: Seq<char>, limit: nat) -> Option<int> {
    if s.len() > 0 && s[0] == '-' {
        let body = s.drop_first();
        if body.len() == 0 || !all_digits(body) || digits_value(body) > limit + 1 {
            None
        } else {
            Some(-(digits_value(body) as int))
        }
    } else {
        match parsed_unsigned(s, limit) {
            Some(v) => Some(v as int),
            None => None,
        }
    }
}

/// The value of the digits of `s` from `start`, capped at 2^32.
fn capped_digits(s: &Vec<char>, start: usize) -> (r: Option<u64>)
    requires
        start <= s.len(),
    ensures
        r is Some <==> (start < s.len() && all_digits(s@.subrange(start as int, s.len() as int))),
        r matches Some(v) ==> {
            let d = digits_value(s@.subrange(start as int, s.len() as int));
            (d < 0x1_0000_0000 ==> v == d) && (d >= 0x1_0000_0000 ==> v == 0x1_0000_0000)
        },
{
    if start >= s.len() {
        return None;
    }
    let cap: u64 = 0x1_0000_0000;
    let mut acc: u64 = 0;
    let mut i: usize = start;
    while i < s.len()
        invariant
            start <= i <= s.len(),
            cap == 0x1_0000_0000,
            all_digits(s@.subrange(start as int, i as int)),
            acc <= cap,
            digits_value(s@.subrange(start as int, i as int)) < cap ==> acc == digits_value(
                s@.subrange(start as int, i as int),
            ),
            digits_value(s@.subrange(start as int, i as int)) >= cap ==> acc == cap,
        decreases s.len() - i,
    {
        let c = s[i];
        if !('0' <= c && c <= '9') {
            assert(s@.subrange(start as int, s.len() as int)[i - start] == c);
            return None;
        }
        let d = (c as u32 - '0' as u32) as u64;
        let next = acc * 10 + d;
        let ghost before = s@.subrange(start as int, i as int);
        let ghost after = s@.subrange(start as int, i + 1);
        assert(after.drop_last() =~= before);
        assert(after.last() == c);
        acc = if next >= cap {
            cap
        } else {
            next
        };
        assert forall|j: int| 0 <= j < after.len() implies '0' <= #[trigger] after[j] <= '9' by {
            if j < before.len() {
                assert(after[j] == before[j]);
            }
        }
        i += 1;
    }
    assert(s@.subrange(start as int, i as int) =~= s@.subrange(start as int, s.len() as int));
    Some(acc)
}

/// Reads an unsigned integer of at most `limit` (below 2^32) as `str::parse` does.
pub fn parse_unsigned(s: &Vec<char>, limit: u64) -> (r: Option<u64>)
    requires
        limit < 0x1_0000_0000,
    ensures
        opt_nat(r) == parsed_unsigned(s@, limit as nat),
{
    let start: usize = if s.len() > 0 && s[0] == '+' {
        1
    } else {
        0
    };
    assert(s@.subrange(start as int, s.len() as int) =~= unsigned_body(s@));
    match capped_digits(s, start) {
        Some(v) => {
            if v > limit {
                None
            } else {
                Some(v)
            }
        },
        None => None,
    }
}

/// Reads an `i32` as `str::parse` does.
pub fn parse_i32(s: &Vec<char>) -> (r: Option<i32>)
    ensures
        opt_int(r) == parsed_signed(s@, 0x7fff_ffff),
{
    if s.len() > 0 && s[0] == '-' {
        assert(s@.subrange(1, s.len() as int) =~= s@.drop_first());
        match capped_digits(s, 1) {
            Some(v) => {
                if v > 0x8000_0000 {
                    None
                } else {
                    Some((0 - (v as i64)) as i32)
                }
            },
            None => None,
        }
    } else {
        match parse_unsigned(s, 0x7fff_ffff) {
            Some(v) => Some(v as i32),
            None => None,
        }
    }
}

/// The optional natural number of an optional `u64`.
pub open spec fn opt_nat(r: Option<u64>) -> Option<nat> {
    match r {
        Some(v) => Some(v as nat),
        None => None,
    }
}

/// The optional integer of an optional `i32`.
pub open spec fn opt_int(r: Option<i32>) -> Option<int> {
    match r {
        Some(v) => Some(v as int),
        None => None,
    }
}


/// `i` is the first whitespace position in `t`.
pub open spec fn is_first_space(t: Seq<char>, i: int) -> bool {
    0 <= i < t.len() && is_space(t[i]) && forall|j: int| 0 <= j < i ==> !is_space(t[j])
}

/// The first whitespace position in `t`, if any.
pub open spec fn first_space(t: Seq<char>) -> Option<int> {
    if exists|i: int| is_first_space(t, i) {
        Some(choose|i: int| is_first_space(t, i))
    } else {
        None
    }
}

/// The first whitespace position in `t`.
fn find_space(t: &Vec<char>) -> (r: Option<usize>)
    ensures
        r matches Some(i) ==> first_space(t@) == Some(i as int),
        r is None ==> first_space(t@) is None,
{
    let mut i: usize = 0;
    while i < t.len()
        invariant
            i <= t.len(),
            forall|j: int| 0 <= j < i ==> !is_space(t@[j]),
        decreases t.len() - i,
    {
        if crate::text::char_is_space(t[i]) {
            proof {
                let k = choose|k: int| is_first_space(t@, k);
                assert(is_first_space(t@, i as int));
                if k < i {
                    assert(!is_space(t@[k]));
                } else if i < k {
                    assert(!is_space(t@[i as int]));
                }
            }
            return Some(i);
        }
        i += 1;
    }
    proof {
        if exists|k: int| is_first_space(t@, k) {
            let k = choose|k: int| is_first_space(t@, k);
            assert(is_space(t@[k]));
        }
    }
    None
}

/// The year, month, day, hour, minute and second of a quote time such as
/// `2026/08/03 10:00:40`: text before the first whitespace split at `/`, text after
/// it split at `:`, the first three fields of each read as integers.
pub open spec fn quote_time_fields(raw: Seq<char>) -> Option<(int, int, int, int, int, int)> {
    let t = crate::text::trim(raw);
    match first_space(t) {
        Some(i) => {
            let date = split_seq(t.subrange(0, i), '/');
            let clock = split_seq(t.subrange(i + 1, t.len() as int), ':');
            if date.len() < 3 || clock.len() < 3 {
                None
            } else {
                match (
                    parsed_signed(date[0], 0x7fff_ffff),
                    parsed_unsigned(date[1], 255),
                    parsed_unsigned(date[2], 255),
                    parsed_unsigned(clock[0], 255),
                    parsed_unsigned(clock[1], 255),
                    parsed_unsigned(clock[2], 255),
                ) {
                    (Some(y), Some(mo), Some(d), Some(h), Some(mi), Some(sec)) => Some(
                        (y, mo as int, d as int, h as int, mi as int, sec as int),
                    ),
                    _ => None,
                }
            }
        },
        None => None,
    }
}

/// The moment (Unix timestamp) and the Julian day number of a quote time read at
/// UTC+8, when its fields form a valid date and clock.
pub open spec fn quote_instant(raw: Seq<char>) -> Option<(int, int)> {
    match quote_time_fields(raw) {
        Some((y, mo, d, h, mi, sec)) => if is_calendar_date(y, mo, d) && h < 24 && mi < 60 && sec
            < 60 {
            let julian = calendar_julian_day(y, mo, d);
            Some(
                (
                    (julian - unix_epoch_julian_day()) * 86_400 + h * 3_600 + mi * 60 + sec
                        - exchange_offset_seconds(),
                    julian,
                ),
            )
        } else {
            None
        },
        None => None,
    }
}

/// Reads a quote time such as `2026/08/03 10:00:40` at UTC+8: its Unix timestamp and
/// the Julian day number of its date.
pub fn parse_quote_datetime(raw: &str) -> (r: Option<(i64, i32)>)
    ensures
        match quote_instant(raw@) {
            Some((unix, julian)) => r matches Some((u, j)) && u == unix && j == julian,
            None => r is None,
        },
{
    let t = crate::text::trimmed_of(raw);
    let i = match find_space(&t) {
        Some(i) => i,
        None => return None,
    };
    let date_part = slice_chars(&t, 0, i);
    let clock_part = slice_chars(&t, i + 1, t.len());
    let date = split_chars(&date_part, '/');
    let clock = split_chars(&clock_part, ':');
    if date.len() < 3 || clock.len() < 3 {
        return None;
    }
    proof {
        assert(char_views(date@)[0] == date@[0]@);
        assert(char_views(date@)[1] == date@[1]@);
        assert(char_views(date@)[2] == date@[2]@);
        assert(char_views(clock@)[0] == clock@[0]@);
        assert(char_views(clock@)[1] == clock@[1]@);
        assert(char_views(clock@)[2] == clock@[2]@);
    }
    let year = match parse_i32(&date[0]) {
        Some(v) => v,
        None => return None,
    };
    let month = match parse_unsigned(&date[1], 255) {
        Some(v) => v as u8,
        None => return None,
    };
    let day = match parse_unsigned(&date[2], 255) {
        Some(v) => v as u8,
        None => return None,
    };
    let hour = match parse_unsigned(&clock[0], 255) {
        Some(v) => v as u8,
        None => return None,
    };
    let minute = match parse_unsigned(&clock[1], 255) {
        Some(v) => v as u8,
        None => return None,
    };
    let second = match parse_unsigned(&clock[2], 255) {
        Some(v) => v as u8,
        None => return None,
    };
    exchange_instant(year, month, day, hour, minute, second)
}

/// The market state of a stock from the trading sessions and the quote's time:
/// closed on weekends and outside the sessions (lunch and after close included), and
/// when the quote is from another day (a holiday); delayed when the quote lags more
/// than five minutes behind during a session; live otherwise, and also when the
/// clock or the quote time cannot be read.
pub open spec fn market_state_model(m: TencentMarket, now: int, raw: Seq<char>) -> ConnectionState {
    if !(min_timestamp() <= now <= max_timestamp()) {
        ConnectionState::Live
    } else {
        let day = local_julian_day(now);
        let second = local_second_of_day(now);
        let minutes = (second / 3_600) * 60 + (second % 3_600) / 60;
        if day % 7 == 5 || day % 7 == 6 {
            ConnectionState::Closed
        } else if !in_session(m, minutes) {
            ConnectionState::Closed
        } else {
            match quote_instant(raw) {
                Some((unix, julian)) => if julian != day {
                    ConnectionState::Closed
                } else if now - unix > MAX_QUOTE_STALENESS_SECS {
                    ConnectionState::Delayed
                } else {
                    ConnectionState::Live
                },
                None => ConnectionState::Live,
            }
        }
    }
}

/// The market state of a stock at `now_unix` given the time of its quote.
pub fn derive_market_state(market: TencentMarket, now_unix: i64, quote_datetime: &str) -> (r:
    ConnectionState)
    requires
        !past_calendar_end_locally(now_unix as int),
    ensures
        r == market_state_model(market, now_unix as int, quote_datetime@),
{
    let now = match exchange_clock(now_unix) {
        Some(c) => c,
        None => return ConnectionState::Live,
    };
    if now.weekday == 5 || now.weekday == 6 {
        return ConnectionState::Closed;
    }
    let minutes: u32 = (now.hour as u32) * 60 + (now.minute as u32);
    if !market.in_session(minutes) {
        return ConnectionState::Closed;
    }
    match parse_quote_datetime(quote_datetime) {
        Some((unix, julian)) => {
            if julian != now.julian_day {
                ConnectionState::Closed
            } else if (now_unix as i128) - (unix as i128) > MAX_QUOTE_STALENESS_SECS as i128 {
                ConnectionState::Delayed
            } else {
                ConnectionState::Live
            }
        },
        None => ConnectionState::Live,
    }
}


/// ASCII whitespace, as `u8::is_ascii_whitespace` decides it.
pub open spec fn is_ascii_space(c: char) -> bool {
    c == ' ' || c == '\t' || c == '\n' || c == '\u{c}' || c == '\r'
}

/// `t` without leading ASCII whitespace.
pub open spec fn skip_ascii_spaces(t: Seq<char>) -> Seq<char>
    decreases t.len(),
{
    if t.len() > 0 && is_ascii_space(t[0]) {
        skip_ascii_spaces(t.drop_first())
    } else {
        t
    }
}

/// The leading run of non-whitespace characters of `t`.
pub open spec fn leading_token(t: Seq<char>) -> Seq<char>
    decreases t.len(),
{
    if t.len() > 0 && !is_ascii_space(t[0]) {
        seq![t[0]] + leading_token(t.drop_first())
    } else {
        Seq::empty()
    }
}

/// `t` after its leading run of non-whitespace characters.
pub open spec fn after_token(t: Seq<char>) -> Seq<char>
    decreases t.len(),
{
    if t.len() > 0 && !is_ascii_space(t[0]) {
        after_token(t.drop_first())
    } else {
        t
    }
}

/// The second whitespace-separated token of `t`, as
/// `split_ascii_whitespace().nth(1)` gives it; empty when there is none.
pub open spec fn second_token(t: Seq<char>) -> Seq<char> {
    leading_token(skip_ascii_spaces(after_token(skip_ascii_spaces(t))))
}

/// The number of bytes of a character in UTF-8.
pub open spec fn utf8_width(c: char) -> nat {
    if (c as u32) < 0x80 {
        1
    } else if (c as u32) < 0x800 {
        2
    } else if (c as u32) < 0x1_0000 {
        3
    } else {
        4
    }
}

/// The leading characters of `t` that make up exactly `n` bytes of UTF-8, as
/// `str::get(..n)` gives them; none when byte `n` is past the end or inside a
/// character.
pub open spec fn byte_prefix(t: Seq<char>, n: nat) -> Option<Seq<char>>
    decreases t.len(),
{
    if n == 0 {
        Some(Seq::empty())
    } else if t.len() == 0 {
        None
    } else if utf8_width(t[0]) > n {
        None
    } else {
        match byte_prefix(t.drop_first(), (n - utf8_width(t[0])) as nat) {
            Some(p) => Some(seq![t[0]] + p),
            None => None,
        }
    }
}

/// The clock shown for a quote time: the first five bytes of its second token
/// (`10:00` of `2026/08/03 10:00:40`), or the whole text when there are none.
pub open spec fn clock_text(t: Seq<char>) -> Seq<char> {
    let token = second_token(t);
    if token.len() == 0 {
        t
    } else {
        match byte_prefix(token, 5) {
            Some(p) => p,
            None => t,
        }
    }
}

/// Whether `c` is ASCII whitespace.
fn char_is_ascii_space(c: char) -> (r: bool)
    ensures
        r == is_ascii_space(c),
{
    c == ' ' || c == '\t' || c == '\n' || c == '\u{c}' || c == '\r'
}

/// The number of bytes of a character in UTF-8.
fn char_utf8_width(c: char) -> (r: usize)
    ensures
        r == utf8_width(c),
{
    let v = c as u32;
    if v < 0x80 {
        1
    } else if v < 0x800 {
        2
    } else if v < 0x1_0000 {
        3
    } else {
        4
    }
}

/// The first index from `i` on at which `t` holds a character that is (or is not,
/// by `space`) ASCII whitespace.
fn skip_while(t: &Vec<char>, i: usize, space: bool) -> (r: usize)
    requires
        i <= t.len(),
    ensures
        i <= r <= t.len(),
        space ==> skip_ascii_spaces(t@.subrange(i as int, t.len() as int)) == t@.subrange(
            r as int,
            t.len() as int,
        ),
        !space ==> after_token(t@.subrange(i as int, t.len() as int)) == t@.subrange(
            r as int,
            t.len() as int,
        ),
        !space ==> leading_token(t@.subrange(i as int, t.len() as int)) == t@.subrange(
            i as int,
            r as int,
        ),
    decreases t.len() - i,
{
    if i < t.len() && char_is_ascii_space(t[i]) == space {
        let r = skip_while(t, i + 1, space);
        proof {
            let rest = t@.subrange(i as int, t.len() as int);
            assert(rest.drop_first() =~= t@.subrange(i + 1, t.len() as int));
            assert(rest[0] == t@[i as int]);
            if !space {
                assert(t@.subrange(i as int, r as int) =~= seq![t@[i as int]] + t@.subrange(
                    i + 1,
                    r as int,
                ));
            }
        }
        r
    } else {
        proof {
            let rest = t@.subrange(i as int, t.len() as int);
            if i < t.len() {
                assert(rest[0] == t@[i as int]);
            }
            assert(t@.subrange(i as int, i as int) =~= Seq::<char>::empty());
        }
        i
    }
}

/// The leading characters of `t[i..]` that make up exactly `n` bytes of UTF-8.
fn take_bytes(t: &Vec<char>, i: usize, n: usize) -> (r: Option<usize>)
    requires
        i <= t.len(),
    ensures
        match byte_prefix(t@.subrange(i as int, t.len() as int), n as nat) {
            Some(p) => r matches Some(k) && i <= k <= t.len() && p == t@.subrange(
                i as int,
                k as int,
            ),
            None => r is None,
        },
    decreases t.len() - i,
{
    let ghost rest = t@.subrange(i as int, t.len() as int);
    if n == 0 {
        assert(t@.subrange(i as int, i as int) =~= Seq::<char>::empty());
        return Some(i);
    }
    if i >= t.len() {
        return None;
    }
    assert(rest[0] == t@[i as int]);
    let w = char_utf8_width(t[i]);
    if w > n {
        return None;
    }
    assert(rest.drop_first() =~= t@.subrange(i + 1, t.len() as int));
    match take_bytes(t, i + 1, n - w) {
        Some(k) => {
            assert(t@.subrange(i as int, k as int) =~= seq![t@[i as int]] + t@.subrange(
                i + 1,
                k as int,
            ));
            Some(k)
        },
        None => None,
    }
}

/// The clock shown for a quote time.
pub fn clock_of(t: &Vec<char>) -> (r: Vec<char>)
    ensures
        r@ == clock_text(t@),
{
    assert(t@.subrange(0, t.len() as int) =~= t@);
    let a = skip_while(t, 0, true);
    let b = skip_while(t, a, false);
    let c = skip_while(t, b, true);
    let d = skip_while(t, c, false);
    if d == c {
        assert(t@.subrange(c as int, d as int) =~= Seq::<char>::empty());
        return slice_chars(t, 0, t.len());
    }
    let token = slice_chars(t, c, d);
    assert(token@.subrange(0, token.len() as int) =~= token@);
    match take_bytes(&token, 0, 5) {
        Some(k) => slice_chars(&token, 0, k),
        None => slice_chars(t, 0, t.len()),
    }
}


/// The currency of a quote payload: field 75 when present and non-empty, otherwise
/// the stock's configured currency.
pub open spec fn payload_currency(f: Seq<Seq<char>>, configured: Seq<char>) -> Seq<char> {
    if f.len() > 75 && f[75].len() > 0 {
        f[75]
    } else {
        configured
    }
}

/// The short name of a quote: the stock's trimmed name, or the service's name (field 1)
/// when the configured one is blank.
pub open spec fn payload_name(f: Seq<Seq<char>>, stock: StockConfig) -> Seq<char> {
    if trim(stock.short_name@).len() == 0 {
        f[1]
    } else {
        trim(stock.short_name@)
    }
}

/// Whether a payload's fields are too few, or lack the last price or previous close.
pub open spec fn payload_incomplete(f: Seq<Seq<char>>) -> bool {
    f.len() < 35 || f[3].len() == 0 || f[4].len() == 0
}

/// The market state given to a parsed quote: derived from the sessions of the
/// stock's market, or live when the symbol is not supported.
pub open spec fn payload_connection(stock: StockConfig, timestamp: int, f: Seq<Seq<char>>) -> ConnectionState {
    match parsed_symbol(stock.symbol@) {
        Some((m, c)) => market_state_model(m, timestamp, f[30]),
        None => ConnectionState::Live,
    }
}

/// Whether `e` is the error of reading the prices and range of a complete payload.
pub open spec fn is_payload_quote_error(f: Seq<Seq<char>>, e: DomainError) -> bool {
    ||| is_input_error("last price"@, f[3], e)
    ||| (acceptable_input(f[3]) && is_input_error("previous close"@, f[4], e))
    ||| (acceptable_input(f[3]) && acceptable_input(f[4]) && is_input_error(
        "day high"@,
        f[33],
        e,
    ))
    ||| (acceptable_input(f[3]) && acceptable_input(f[4]) && acceptable_input(f[33])
        && is_input_error("day low"@, f[34], e))
}

/// Whether `r` is the outcome of reading the quote payload `payload` (the text between
/// the quotes of `v_<symbol>="..."`) for `stock` at `timestamp`: its `~`-separated
/// fields give the last price (3), the previous close (4), the quote time (30), the
/// day's high and low (33, 34) and the currency (75).
pub open spec fn is_payload_outcome(
    stock: StockConfig,
    timestamp: i64,
    payload: Seq<char>,
    r: Result<ProviderUpdate, ProviderError>,
) -> bool {
    let f = split_seq(payload, '~');
    if payload_incomplete(f) {
        r matches Err(ProviderError::InvalidResponse(m)) && m@ == "quote payload is incomplete"@
    } else if !(acceptable_input(f[3]) && acceptable_input(f[4]) && acceptable_input(f[33])
        && acceptable_input(f[34])) {
        r matches Err(ProviderError::InvalidQuote(e)) && is_payload_quote_error(f, e)
    } else {
        &&& r matches Ok(u)
        &&& parsed_input_ok(f[3], u.quote.last_price@)
        &&& parsed_input_ok(f[4], u.quote.previous_close@)
        &&& u.quote.day_high matches Some(h) && parsed_input_ok(f[33], h@)
        &&& u.quote.day_low matches Some(l) && parsed_input_ok(f[34], l@)
        &&& u.quote.currency@ == payload_currency(f, stock.currency@)
        &&& u.quote.timestamp == timestamp
        &&& opt_text(u.quote.symbol) == Some(trim(stock.symbol@))
        &&& opt_text(u.quote.short_name) == Some(payload_name(f, stock))
        &&& opt_text(u.quote.updated_time) == Some(clock_text(f[30]))
        &&& u.connection == payload_connection(stock, timestamp as int, f)
    }
}

impl TencentQuoteProvider {
    /// Reads the quote payload of one stock.
    pub fn parse_payload(stock: &StockConfig, timestamp: i64, payload: &str) -> (r: Result<
        ProviderUpdate,
        ProviderError,
    >)
        requires
            !past_calendar_end_locally(timestamp as int),
        ensures
            is_payload_outcome(*stock, timestamp, payload@, r),
    {
        let text = chars_of(payload);
        let fields = split_chars(&text, '~');
        let ghost f = split_seq(payload@, '~');
        assert(char_views(fields@) == f);
        if fields.len() < 35 || fields[3].len() == 0 || fields[4].len() == 0 {
            proof {
                if fields.len() >= 35 {
                    assert(f[3] == fields@[3]@);
                    assert(f[4] == fields@[4]@);
                }
            }
            return Err(ProviderError::InvalidResponse(String::from_str("quote payload is incomplete")));
        }
        assert(f[1] == fields@[1]@);
        assert(f[3] == fields@[3]@);
        assert(f[4] == fields@[4]@);
        assert(f[30] == fields@[30]@);
        assert(f[33] == fields@[33]@);
        assert(f[34] == fields@[34]@);
        let currency = if fields.len() > 75 && fields[75].len() > 0 {
            assert(f[75] == fields@[75]@);
            string_of(&fields[75])
        } else {
            String::from_str(stock.currency.as_str())
        };
        let configured_name = trimmed_of(stock.short_name.as_str());
        let short_name = if configured_name.len() == 0 {
            string_of(&fields[1])
        } else {
            string_of(&configured_name)
        };
        let clock = string_of(&clock_of(&fields[30]));
        let last_text = string_of(&fields[3]);
        let previous_text = string_of(&fields[4]);
        let high_text = string_of(&fields[33]);
        let low_text = string_of(&fields[34]);
        let quote = match QuoteSnapshot::try_new(
            last_text.as_str(),
            previous_text.as_str(),
            currency.as_str(),
            timestamp,
        ) {
            Ok(q) => q,
            Err(e) => return Err(ProviderError::from_domain(e)),
        };
        let symbol = string_of(&trimmed_of(stock.symbol.as_str()));
        let quote = quote.with_identity(symbol.as_str(), short_name.as_str());
        let quote = match quote.with_day_range(high_text.as_str(), low_text.as_str()) {
            Ok(q) => q,
            Err(e) => return Err(ProviderError::from_domain(e)),
        };
        let quote = quote.with_updated_time(clock.as_str());
        let connection = match NormalizedSymbol::parse(stock.symbol.as_str()) {
            Ok(n) => derive_market_state(n.market, timestamp, string_of(&fields[30]).as_str()),
            Err(_) => ConnectionState::Live,
        };
        Ok(ProviderUpdate { quote, connection })
    }
}

/// The symbol and payload of one `;`-separated segment `v_<symbol>="<payload>"`.
pub open spec fn segment_entry(seg: Seq<char>) -> Option<(Seq<char>, Seq<char>)> {
    let t = trim(seg);
    if !has_prefix(t, seq!['v', '_']) {
        None
    } else {
        let rest = t.subrange(2, t.len() as int);
        match first_index(rest, '=') {
            Some(i) => {
                let key = rest.subrange(0, i);
                let remainder = rest.subrange(i + 1, rest.len() as int);
                match first_index(remainder, '"') {
                    Some(j) => {
                        let tail = remainder.subrange(j + 1, remainder.len() as int);
                        match first_index(tail, '"') {
                            Some(k) => Some((key, tail.subrange(0, k))),
                            None => None,
                        }
                    },
                    None => None,
                }
            },
            None => None,
        }
    }
}

/// The entries of a list of segments, in order, skipping those that hold none.
pub open spec fn segment_entries(segs: Seq<Seq<char>>) -> Seq<(Seq<char>, Seq<char>)>
    decreases segs.len(),
{
    if segs.len() == 0 {
        Seq::empty()
    } else {
        let before = segment_entries(segs.drop_last());
        match segment_entry(segs.last()) {
            Some(e) => before.push(e),
            None => before,
        }
    }
}

/// The payload of the first entry for `key`.
pub open spec fn payload_for(entries: Seq<(Seq<char>, Seq<char>)>, key: Seq<char>) -> Option<Seq<char>>
    decreases entries.len(),
{
    if entries.len() == 0 {
        None
    } else if entries[0].0 == key {
        Some(entries[0].1)
    } else {
        payload_for(entries.drop_first(), key)
    }
}

/// The payload for `key` in a whole batch response.
pub open spec fn response_payload(response: Seq<char>, key: Seq<char>) -> Option<Seq<char>> {
    payload_for(segment_entries(split_seq(response, ';')), key)
}

/// Whether `r` is the outcome for one stock of a batch response.
pub open spec fn is_batch_outcome(
    stock: StockConfig,
    provider_symbol: Seq<char>,
    timestamp: i64,
    response: Seq<char>,
    r: Result<ProviderUpdate, ProviderError>,
) -> bool {
    match response_payload(response, provider_symbol) {
        Some(p) => is_payload_outcome(stock, timestamp, p, r),
        None => r matches Err(ProviderError::InvalidResponse(m)) && m@ == "no quote payload for "@
            + stock.symbol@,
    }
}

/// The entry of one segment.
fn read_segment(seg: &Vec<char>) -> (r: Option<(Vec<char>, Vec<char>)>)
    ensures
        match segment_entry(seg@) {
            Some((k, p)) => r matches Some((rk, rp)) && rk@ == k && rp@ == p,
            None => r is None,
        },
{
    let t = crate::text::trimmed(seg);
    let v_ = vec!['v', '_'];
    assert(v_@ =~= seq!['v', '_']);
    if !starts_with(&t, &v_) {
        return None;
    }
    let rest = slice_chars(&t, 2, t.len());
    let i = match crate::text::find_char(&rest, '=') {
        Some(i) => i,
        None => return None,
    };
    let key = slice_chars(&rest, 0, i);
    let remainder = slice_chars(&rest, i + 1, rest.len());
    let j = match crate::text::find_char(&remainder, '"') {
        Some(j) => j,
        None => return None,
    };
    let tail = slice_chars(&remainder, j + 1, remainder.len());
    let k = match crate::text::find_char(&tail, '"') {
        Some(k) => k,
        None => return None,
    };
    Some((key, slice_chars(&tail, 0, k)))
}

/// The views of a list of entries.
pub open spec fn entry_views(v: Seq<(Vec<char>, Vec<char>)>) -> Seq<(Seq<char>, Seq<char>)> {
    v.map_values(|e: (Vec<char>, Vec<char>)| (e.0@, e.1@))
}

/// The entries of a batch response.
fn read_entries(response: &Vec<char>) -> (r: Vec<(Vec<char>, Vec<char>)>)
    ensures
        entry_views(r@) == segment_entries(split_seq(response@, ';')),
{
    let segs = split_chars(response, ';');
    let ghost sv = split_seq(response@, ';');
    let mut out: Vec<(Vec<char>, Vec<char>)> = Vec::new();
    let mut i: usize = 0;
    while i < segs.len()
        invariant
            i <= segs.len(),
            char_views(segs@) == sv,
            entry_views(out@) == segment_entries(sv.take(i as int)),
        decreases segs.len() - i,
    {
        let ghost before = entry_views(out@);
        assert(sv.take(i + 1).drop_last() =~= sv.take(i as int));
        assert(sv.take(i + 1).last() == segs@[i as int]@);
        match read_segment(&segs[i]) {
            Some(e) => {
                let ghost ev = (e.0@, e.1@);
                out.push(e);
                assert(entry_views(out@) =~= before.push(ev));
            },
            None => {},
        }
        i += 1;
    }
    assert(sv.take(segs.len() as int) =~= sv);
    out
}

/// The payload of the first entry for `key`.
fn find_payload(entries: &Vec<(Vec<char>, Vec<char>)>, key: &Vec<char>) -> (r: Option<usize>)
    ensures
        match payload_for(entry_views(entries@), key@) {
            Some(p) => r matches Some(i) && i < entries@.len() && entries@[i as int].1@ == p,
            None => r is None,
        },
{
    let ghost all = entry_views(entries@);
    assert(all.subrange(0, all.len() as int) =~= all);
    let mut i: usize = 0;
    while i < entries.len()
        invariant
            i <= entries.len(),
            all == entry_views(entries@),
            payload_for(all, key@) == payload_for(all.subrange(i as int, all.len() as int), key@),
        decreases entries.len() - i,
    {
        let ghost rest = all.subrange(i as int, all.len() as int);
        assert(rest[0] == all[i as int]);
        assert(rest.drop_first() =~= all.subrange(i + 1, all.len() as int));
        if crate::text::same_chars(&entries[i].0, key) {
            return Some(i);
        }
        i += 1;
    }
    None
}

impl TencentQuoteProvider {
    /// Reads a batch response: for each stock (paired with its quote-service symbol)
    /// the quote of the first `v_<symbol>="..."` entry for it, or an error for that
    /// stock alone when the response holds none.
    pub fn parse_batch_response(
        stocks: &Vec<StockConfig>,
        provider_symbols: &Vec<String>,
        timestamp: i64,
        response: &str,
    ) -> (r: Vec<Result<ProviderUpdate, ProviderError>>)
        requires
            !past_calendar_end_locally(timestamp as int),
        ensures
            r@.len() == if stocks@.len() <= provider_symbols@.len() {
                stocks@.len()
            } else {
                provider_symbols@.len()
            },
            forall|i: int|
                0 <= i < r@.len() ==> is_batch_outcome(
                    stocks@[i],
                    provider_symbols@[i]@,
                    timestamp,
                    response@,
                    #[trigger] r@[i],
                ),
    {
        let text = chars_of(response);
        let entries = read_entries(&text);
        let n = if stocks.len() <= provider_symbols.len() {
            stocks.len()
        } else {
            provider_symbols.len()
        };
        let mut out: Vec<Result<ProviderUpdate, ProviderError>> = Vec::new();
        let mut i: usize = 0;
        while i < n
            invariant
                i <= n,
                n <= stocks@.len(),
                n <= provider_symbols@.len(),
                !past_calendar_end_locally(timestamp as int),
                entry_views(entries@) == segment_entries(split_seq(response@, ';')),
                out@.len() == i,
                forall|k: int|
                    0 <= k < i ==> is_batch_outcome(
                        stocks@[k],
                        provider_symbols@[k]@,
                        timestamp,
                        response@,
                        #[trigger] out@[k],
                    ),
            decreases n - i,
        {
            let key = chars_of(provider_symbols[i].as_str());
            let stock = &stocks[i];
            let item = match find_payload(&entries, &key) {
                Some(j) => {
                    let payload = string_of(&entries[j].1);
                    TencentQuoteProvider::parse_payload(stock, timestamp, payload.as_str())
                },
                None => Err(
                    ProviderError::InvalidResponse(
                        joined("no quote payload for ", stock.symbol.as_str()),
                    ),
                ),
            };
            out.push(item);
            i += 1;
        }
        out
    }
}


/// A stock found by a search.
#[derive(Clone, Debug, PartialEq, Eq)]
pub struct StockSearchResult {
    pub symbol: String,
    pub name: String,
    pub market: String,
    pub currency: String,
}

/// The outcome `serde_json` gives for decoding `text` as one JSON string: the decoded
/// characters, or the message of its error.
pub uninterp spec fn json_string_parsed(text: Seq<char>) -> Result<Seq<char>, Seq<char>>;

/// Decodes `text` as one JSON string value.
///
/// Calls `serde_json::from_str::<String>` and prints an error with `to_string`; the
/// contract claims only that the outcome is the named function of the text.
#[verifier::external_body]
fn decode_json_string(text: &str) -> (r: Result<String, String>)
    ensures
        match json_string_parsed(text@) {
            Ok(v) => r matches Ok(s) && s@ == v,
            Err(m) => r matches Err(e) && e@ == m,
        },
{
    serde_json::from_str::<String>(text).map_err(|error| error.to_string())
}

/// The symbol a search result's market and code fields name: the market code is read
/// case-insensitively, and the code is checked as a symbol of that market.
pub open spec fn search_symbol(market: Seq<char>, code: Seq<char>) -> Option<(TencentMarket, Seq<char>)> {
    match market_of_code(upper(market)) {
        Some(m) => parsed_symbol(code + seq!['.'] + market_suffix(m)),
        None => None,
    }
}

impl NormalizedSymbol {
    /// The symbol of a search result's market and code fields.
    pub fn from_search_fields(market: &str, code: &str) -> (r: Result<NormalizedSymbol, ProviderError>)
        ensures
            match market_of_code(upper(market@)) {
                Some(m) => is_symbol_outcome(code@ + seq!['.'] + market_suffix(m), r),
                None => r matches Err(ProviderError::UnsupportedSymbol(t)) && t@ == market@
                    + code@,
            },
    {
        let upper_market = crate::text::uppercased(&chars_of(market));
        let m = match TencentMarket::from_code(&upper_market) {
            Some(m) => m,
            None => return Err(ProviderError::UnsupportedSymbol(joined(market, code))),
        };
        let mut text = chars_of(code);
        text.push('.');
        let suffix = m.suffix();
        extend_chars(&mut text, &suffix);
        assert(text@ =~= code@ + seq!['.'] + market_suffix(m));
        let symbol = string_of(&text);
        NormalizedSymbol::parse(symbol.as_str())
    }
}

/// The stock of one `^`-separated search candidate `market~code~name~…~type`: only
/// stocks (type `GP` or `GP-A`) of a supported symbol with a non-blank name.
pub open spec fn search_hit(candidate: Seq<char>) -> Option<(TencentMarket, Seq<char>, Seq<char>)> {
    let f = split_seq(candidate, '~');
    if f.len() < 5 || !(f[4] == seq!['G', 'P'] || f[4] == seq!['G', 'P', '-', 'A']) {
        None
    } else {
        match search_symbol(f[0], f[1]) {
            Some((m, c)) => if trim(f[2]).len() == 0 {
                None
            } else {
                Some((m, c, trim(f[2])))
            },
            None => None,
        }
    }
}

/// The stocks of a list of candidates, in order.
pub open spec fn search_hits(cands: Seq<Seq<char>>) -> Seq<(TencentMarket, Seq<char>, Seq<char>)>
    decreases cands.len(),
{
    if cands.len() == 0 {
        Seq::empty()
    } else {
        let before = search_hits(cands.drop_last());
        match search_hit(cands.last()) {
            Some(h) => before.push(h),
            None => before,
        }
    }
}

/// At most the first `n` items of `s`.
pub open spec fn first_n<A>(s: Seq<A>, n: nat) -> Seq<A> {
    if s.len() <= n {
        s
    } else {
        s.take(n as int)
    }
}

/// The most results a search gives.
pub const MAX_SEARCH_RESULTS: usize = 8;

/// Whether `r` is the search result of a hit.
pub open spec fn is_search_result(r: StockSearchResult, hit: (TencentMarket, Seq<char>, Seq<char>)) -> bool {
    &&& r.symbol@ == canonical_text(hit.0, hit.1)
    &&& r.name@ == hit.2
    &&& r.market@ == market_label(hit.0)
    &&& r.currency@ == market_currency(hit.0)
}

/// The hit of one candidate.
fn read_candidate(candidate: &Vec<char>) -> (r: Option<StockSearchResult>)
    ensures
        match search_hit(candidate@) {
            Some(h) => r matches Some(x) && is_search_result(x, h),
            None => r is None,
        },
{
    let f = split_chars(candidate, '~');
    let ghost fv = split_seq(candidate@, '~');
    if f.len() < 5 {
        return None;
    }
    assert(fv[0] == f@[0]@ && fv[1] == f@[1]@ && fv[2] == f@[2]@ && fv[4] == f@[4]@);
    let kind = &f[4];
    let is_stock = (kind.len() == 2 && kind[0] == 'G' && kind[1] == 'P') || (kind.len() == 4
        && kind[0] == 'G' && kind[1] == 'P' && kind[2] == '-' && kind[3] == 'A');
    proof {
        if kind.len() == 2 && kind[0] == 'G' && kind[1] == 'P' {
            assert(kind@ =~= seq!['G', 'P']);
        }
        if kind.len() == 4 && kind[0] == 'G' && kind[1] == 'P' && kind[2] == '-' && kind[3] == 'A' {
            assert(kind@ =~= seq!['G', 'P', '-', 'A']);
        }
        if kind@ == seq!['G', 'P'] {
            assert(kind@[0] == 'G' && kind@[1] == 'P');
        }
        if kind@ == seq!['G', 'P', '-', 'A'] {
            assert(kind@[0] == 'G' && kind@[1] == 'P' && kind@[2] == '-' && kind@[3] == 'A');
        }
    }
    if !is_stock {
        return None;
    }
    let market = string_of(&f[0]);
    let code = string_of(&f[1]);
    let normalized = match NormalizedSymbol::from_search_fields(market.as_str(), code.as_str()) {
        Ok(n) => n,
        Err(_) => return None,
    };
    let name = crate::text::trimmed(&f[2]);
    if name.len() == 0 {
        return None;
    }
    Some(
        StockSearchResult {
            symbol: normalized.canonical_symbol(),
            name: string_of(&name),
            market: String::from_str(normalized.market.label()),
            currency: String::from_str(normalized.market.currency()),
        },
    )
}

impl TencentQuoteProvider {
    /// The stocks of a decoded search payload: `^`-separated candidates, only stocks of
    /// supported symbols with a name, at most eight, in order.
    pub fn search_results(decoded: &str) -> (r: Vec<StockSearchResult>)
        ensures
            r@.len() == first_n(search_hits(split_seq(decoded@, '^')), 8).len(),
            forall|i: int|
                0 <= i < r@.len() ==> is_search_result(
                    #[trigger] r@[i],
                    first_n(search_hits(split_seq(decoded@, '^')), 8)[i],
                ),
    {
        let text = chars_of(decoded);
        let cands = split_chars(&text, '^');
        let ghost cv = split_seq(decoded@, '^');
        let mut out: Vec<StockSearchResult> = Vec::new();
        let mut i: usize = 0;
        while i < cands.len()
            invariant
                i <= cands.len(),
                char_views(cands@) == cv,
                out@.len() == first_n(search_hits(cv.take(i as int)), 8).len(),
                forall|k: int|
                    0 <= k < out@.len() ==> is_search_result(
                        #[trigger] out@[k],
                        first_n(search_hits(cv.take(i as int)), 8)[k],
                    ),
            decreases cands.len() - i,
        {
            let ghost prev = search_hits(cv.take(i as int));
            assert(cv.take(i + 1).drop_last() =~= cv.take(i as int));
            assert(cv.take(i + 1).last() == cands@[i as int]@);
            let found = read_candidate(&cands[i]);
            let ghost next = search_hits(cv.take(i + 1));
            if out.len() < MAX_SEARCH_RESULTS {
                match found {
                    Some(x) => {
                        out.push(x);
                        assert forall|k: int| 0 <= k < out@.len() implies is_search_result(
                            #[trigger] out@[k],
                            first_n(next, 8)[k],
                        ) by {
                            if k < out@.len() - 1 {
                                assert(first_n(next, 8)[k] == first_n(prev, 8)[k]);
                            }
                        }
                    },
                    None => {},
                }
            } else {
                assert forall|k: int| 0 <= k < out@.len() implies is_search_result(
                    #[trigger] out@[k],
                    first_n(next, 8)[k],
                ) by {
                    assert(first_n(next, 8)[k] == first_n(prev, 8)[k]);
                }
            }
            i += 1;
        }
        assert(cv.take(cands.len() as int) =~= cv);
        out
    }

    /// Reads a search response `v_hint="…"`: the JSON string between its first and
    /// last quote, decoded, and then the stocks it lists.
    pub fn parse_search_response(response: &str) -> (r: Result<Vec<StockSearchResult>, ProviderError>)
        ensures
            match (first_index(response@, '"'), last_index(response@, '"')) {
                (Some(start), Some(end)) => if end > start {
                    match json_string_parsed(response@.subrange(start, end + 1)) {
                        Ok(decoded) => r matches Ok(v) && v@.len() == first_n(
                            search_hits(split_seq(decoded, '^')),
                            8,
                        ).len() && forall|i: int|
                            0 <= i < v@.len() ==> is_search_result(
                                #[trigger] v@[i],
                                first_n(search_hits(split_seq(decoded, '^')), 8)[i],
                            ),
                        Err(m) => r matches Err(ProviderError::InvalidResponse(e)) && e@ == m,
                    }
                } else {
                    r matches Err(ProviderError::InvalidResponse(e)) && e@
                        == "missing search payload"@
                },
                _ => r matches Err(ProviderError::InvalidResponse(e)) && e@
                    == "missing search payload"@,
            },
    {
        let text = chars_of(response);
        let start = match crate::text::find_char(&text, '"') {
            Some(i) => i,
            None => {
                proof {
                    assert(first_index(response@, '"') is None);
                }
                return Err(ProviderError::InvalidResponse(String::from_str("missing search payload")));
            },
        };
        let end = match rfind_char(&text, '"') {
            Some(j) => j,
            None => {
                return Err(ProviderError::InvalidResponse(String::from_str("missing search payload")));
            },
        };
        if end <= start {
            return Err(ProviderError::InvalidResponse(String::from_str("missing search payload")));
        }
        let payload = string_of(&slice_chars(&text, start, end + 1));
        match decode_json_string(payload.as_str()) {
            Ok(decoded) => Ok(TencentQuoteProvider::search_results(decoded.as_str())),
            Err(m) => Err(ProviderError::InvalidResponse(m)),
        }
    }
}


impl TencentQuoteProvider {
    /// The quote service's form of a user's symbol (`01810.HK` → `r_hk01810`).
    pub fn normalize_symbol(symbol: &str) -> (r: Result<String, ProviderError>)
        ensures
            match parsed_symbol(symbol@) {
                Some((m, c)) => r matches Ok(t) && t@ == provider_text(m, c),
                None => r matches Err(ProviderError::UnsupportedSymbol(t)) && t@ == symbol@,
            },
    {
        match NormalizedSymbol::parse(symbol) {
            Ok(n) => Ok(n.provider_symbol()),
            Err(e) => Err(e),
        }
    }

    /// The canonical form of a user's symbol (`sh600519` → `600519.SH`).
    pub fn canonical_symbol(symbol: &str) -> (r: Result<String, ProviderError>)
        ensures
            match parsed_symbol(symbol@) {
                Some((m, c)) => r matches Ok(t) && t@ == canonical_text(m, c),
                None => r matches Err(ProviderError::UnsupportedSymbol(t)) && t@ == symbol@,
            },
    {
        match NormalizedSymbol::parse(symbol) {
            Ok(n) => Ok(n.canonical_symbol()),
            Err(e) => Err(e),
        }
    }

    /// The quote-service symbols of all stocks, in order; the error of the first stock
    /// whose symbol is not supported.
    pub fn provider_symbols(stocks: &Vec<StockConfig>) -> (r: Result<Vec<String>, ProviderError>)
        ensures
            r is Ok <==> forall|i: int|
                0 <= i < stocks@.len() ==> provider_symbol_of(#[trigger] stocks@[i].symbol@) is Some,
            r matches Ok(v) ==> v@.len() == stocks@.len() && forall|i: int|
                0 <= i < v@.len() ==> provider_symbol_of(stocks@[i].symbol@) == Some(
                    (#[trigger] v@[i])@,
                ),
            r matches Err(e) ==> exists|k: int|
                0 <= k < stocks@.len() && provider_symbol_of(#[trigger] stocks@[k].symbol@) is None
                    && (forall|j: int|
                    0 <= j < k ==> provider_symbol_of(#[trigger] stocks@[j].symbol@) is Some) && (
                e matches ProviderError::UnsupportedSymbol(t) && t@ == stocks@[k].symbol@),
    {
        let mut out: Vec<String> = Vec::new();
        let mut i: usize = 0;
        while i < stocks.len()
            invariant
                i <= stocks@.len(),
                out@.len() == i,
                forall|j: int|
                    0 <= j < i ==> provider_symbol_of(stocks@[j].symbol@) == Some(
                        (#[trigger] out@[j])@,
                    ),
            decreases stocks.len() - i,
        {
            match TencentQuoteProvider::normalize_symbol(stocks[i].symbol.as_str()) {
                Ok(t) => {
                    out.push(t);
                    assert(provider_symbol_of(stocks@[i as int].symbol@) == Some(out@[i as int]@));
                },
                Err(e) => {
                    proof {
                        assert forall|j: int| 0 <= j < i implies provider_symbol_of(
                            #[trigger] stocks@[j].symbol@,
                        ) is Some by {
                            assert(provider_symbol_of(stocks@[j].symbol@) == Some(out@[j]@));
                        }
                    }
                    return Err(e);
                },
            }
            i += 1;
        }
        proof {
            assert forall|j: int| 0 <= j < stocks@.len() implies provider_symbol_of(
                #[trigger] stocks@[j].symbol@,
            ) is Some by {
                assert(provider_symbol_of(stocks@[j].symbol@) == Some(out@[j]@));
            }
        }
        Ok(out)
    }

    /// The address of the one request that fetches the quotes of all the stocks. It
    /// depends on their symbols alone: positions, names and currencies never reach it.
    pub fn quote_request_url(stocks: &Vec<StockConfig>) -> (r: Result<String, ProviderError>)
        ensures
            match quote_request_text(stock_symbols(stocks@)) {
                Some(t) => r matches Ok(u) && u@ == t,
                None => r matches Err(ProviderError::UnsupportedSymbol(_)),
            },
    {
        let ghost syms = stock_symbols(stocks@);
        assert forall|i: int| 0 <= i < stocks@.len() implies #[trigger] syms[i]
            == stocks@[i].symbol@ by {}
        let symbols = match Self::provider_symbols(stocks) {
            Ok(v) => v,
            Err(e) => {
                proof {
                    let k = choose|k: int|
                        0 <= k < stocks@.len() && provider_symbol_of(
                            #[trigger] stocks@[k].symbol@,
                        ) is None && (forall|j: int|
                            0 <= j < k ==> provider_symbol_of(#[trigger] stocks@[j].symbol@)
                                is Some) && (e matches ProviderError::UnsupportedSymbol(t) && t@
                            == stocks@[k].symbol@);
                    assert(provider_symbol_of(syms[k]) is None);
                }
                return Err(e);
            },
        };
        let url = Self::quote_url(&symbols);
        proof {
            assert forall|i: int| 0 <= i < syms.len() implies provider_symbol_of(
                #[trigger] syms[i],
            ) is Some by {
                assert(provider_symbol_of(stocks@[i].symbol@) == Some(symbols@[i]@));
            }
            assert(crate::text::texts(symbols@) =~= syms.map_values(
                |t: Seq<char>| provider_symbol_of(t)->0,
            )) by {
                assert forall|i: int| 0 <= i < syms.len() implies crate::text::texts(symbols@)[i]
                    == syms.map_values(|t: Seq<char>| provider_symbol_of(t)->0)[i] by {
                    assert(provider_symbol_of(stocks@[i].symbol@) == Some(symbols@[i]@));
                }
            }
        }
        Ok(url)
    }

    /// The address of one quote request for the given quote-service symbols.
    pub fn quote_url(provider_symbols: &Vec<String>) -> (r: String)
        ensures
            r@ == "https://qt.gtimg.cn/q="@ + crate::text::join(
                crate::text::texts(provider_symbols@),
                ","@,
            ),
    {
        let joined_symbols = crate::text::join_strings(provider_symbols, ",");
        joined("https://qt.gtimg.cn/q=", joined_symbols.as_str())
    }

    /// The query to send for a stock search: trimmed; none for a blank query, and an
    /// error for one of more than 32 characters.
    pub fn search_query(query: &str) -> (r: Result<Option<String>, ProviderError>)
        ensures
            trim(query@).len() == 0 ==> r matches Ok(None),
            0 < trim(query@).len() <= MAX_SEARCH_QUERY_CHARS ==> (r matches Ok(Some(q)) && q@
                == trim(query@)),
            trim(query@).len() > MAX_SEARCH_QUERY_CHARS ==> r matches Err(
                ProviderError::InvalidSearchQuery,
            ),
    {
        let t = trimmed_of(query);
        if t.len() == 0 {
            Ok(None)
        } else if t.len() > MAX_SEARCH_QUERY_CHARS {
            Err(ProviderError::InvalidSearchQuery)
        } else {
            Ok(Some(string_of(&t)))
        }
    }

    /// Refuses a response whose announced length exceeds the limit.
    pub fn check_content_length(length: Option<u64>) -> (r: Result<(), ProviderError>)
        ensures
            match length {
                Some(l) => if l > MAX_RESPONSE_BYTES {
                    r matches Err(ProviderError::ResponseTooLarge(s)) && s == l as usize
                } else {
                    r is Ok
                },
                None => r is Ok,
            },
    {
        match length {
            Some(l) => if l > MAX_RESPONSE_BYTES as u64 {
                Err(ProviderError::ResponseTooLarge(l as usize))
            } else {
                Ok(())
            },
            None => Ok(()),
        }
    }

    /// The body length after one more chunk, or an error when it would exceed the
    /// limit.
    pub fn accept_chunk(received: usize, chunk: usize) -> (r: Result<usize, ProviderError>)
        requires
            received <= MAX_RESPONSE_BYTES,
            chunk <= isize::MAX,
        ensures
            received + chunk > MAX_RESPONSE_BYTES ==> (r matches Err(
                ProviderError::ResponseTooLarge(s),
            ) && s == received + chunk),
            received + chunk <= MAX_RESPONSE_BYTES ==> (r matches Ok(n) && n == received + chunk),
    {
        let total = received + chunk;
        if total > MAX_RESPONSE_BYTES {
            Err(ProviderError::ResponseTooLarge(total))
        } else {
            Ok(total)
        }
    }
}

/// A source of quotes, one stock at a time.
pub trait QuoteProvider {
    /// The next quote of `stock`, stamped with `timestamp` and the clock text
    /// `updated_time`.
    fn next_quote(&mut self, stock: &StockConfig, timestamp: i64, updated_time: &str) -> Result<
        ProviderUpdate,
        ProviderError,
    >;
}

/// The demo feed: a price that swings around 42.85 in a fixed cycle.
#[derive(Debug)]
pub struct MockQuoteProvider {
    tick: usize,
}

impl View for MockQuoteProvider {
    type V = nat;

    /// How many quotes the feed has given (wrapping).
    closed spec fn view(&self) -> nat {
        self.tick as nat
    }
}

impl Default for MockQuoteProvider {
    fn default() -> (r: Self)
        ensures
            r@ == 0,
    {
        MockQuoteProvider { tick: 0 }
    }
}

/// The offsets, in cents above 42.20, of the demo price cycle.
pub open spec fn mock_offsets() -> Seq<nat> {
    seq![65, 68, 72, 77, 81, 86, 90, 87, 83, 79, 74, 70, 66, 63, 61, 64]
}

/// The demo price text at a tick: 42.20 plus the tick's offset, with two decimals.
pub open spec fn mock_price_text(tick: nat) -> Seq<char> {
    crate::decimal::decimal_text(((4_220 + mock_offsets()[(tick % 16) as int]) as nat, 2nat, false))
}

/// The demo price repeats every sixteen quotes and stays between 42.81 and 43.10, so
/// it moves without drifting away.
pub proof fn lemma_mock_price_cycles(tick: nat)
    ensures
        mock_price_text(tick + 16) == mock_price_text(tick),
        4_281 <= 4_220 + mock_offsets()[(tick % 16) as int] <= 4_310,
{
    assert((tick + 16) % 16 == tick % 16);
    let i = (tick % 16) as int;
    assert(0 <= i < 16);
    assert(mock_offsets()[0] == 65 && mock_offsets()[1] == 68 && mock_offsets()[2] == 72
        && mock_offsets()[3] == 77 && mock_offsets()[4] == 81 && mock_offsets()[5] == 86
        && mock_offsets()[6] == 90 && mock_offsets()[7] == 87 && mock_offsets()[8] == 83
        && mock_offsets()[9] == 79 && mock_offsets()[10] == 74 && mock_offsets()[11] == 70
        && mock_offsets()[12] == 66 && mock_offsets()[13] == 63 && mock_offsets()[14] == 61
        && mock_offsets()[15] == 64);
}

/// The offset of the demo price cycle at position `i`.
fn mock_offset(i: usize) -> (r: i64)
    requires
        i < 16,
    ensures
        r == mock_offsets()[i as int],
{
    match i {
        0 => 65,
        1 => 68,
        2 => 72,
        3 => 77,
        4 => 81,
        5 => 86,
        6 => 90,
        7 => 87,
        8 => 83,
        9 => 79,
        10 => 74,
        11 => 70,
        12 => 66,
        13 => 63,
        14 => 61,
        _ => 64,
    }
}

/// Whether `e` is the error of the demo quote at a tick.
pub open spec fn is_mock_error(tick: nat, e: DomainError) -> bool {
    ||| is_input_error("last price"@, mock_price_text(tick), e)
    ||| (acceptable_input(mock_price_text(tick)) && is_input_error(
        "previous close"@,
        "42.20"@,
        e,
    ))
    ||| (acceptable_input(mock_price_text(tick)) && acceptable_input("42.20"@)
        && is_input_error("day high"@, "43.10"@, e))
    ||| (acceptable_input(mock_price_text(tick)) && acceptable_input("42.20"@) && acceptable_input(
        "43.10"@,
    ) && is_input_error("day low"@, "41.90"@, e))
}

/// The tick after `tick`, wrapping at the largest `usize`.
pub open spec fn next_tick(tick: nat) -> nat {
    if tick == usize::MAX {
        0
    } else {
        tick + 1
    }
}

/// Whether `r` is the demo quote at `tick` for `stock`, `timestamp` and `updated_time`:
/// the cycle's price, previous close 42.20, day range 41.90–43.10, the stock's
/// identity and currency, live; or the domain error of reading those texts.
pub open spec fn is_mock_outcome(
    tick: nat,
    stock: StockConfig,
    timestamp: i64,
    updated_time: Seq<char>,
    r: Result<ProviderUpdate, ProviderError>,
) -> bool {
    &&& (r is Ok <==> (acceptable_input(mock_price_text(tick)) && acceptable_input("42.20"@)
        && acceptable_input("43.10"@) && acceptable_input("41.90"@)))
    &&& r matches Ok(u) ==> {
        &&& parsed_input_ok(mock_price_text(tick), u.quote.last_price@)
        &&& parsed_input_ok("42.20"@, u.quote.previous_close@)
        &&& u.quote.day_high matches Some(h) && parsed_input_ok("43.10"@, h@)
        &&& u.quote.day_low matches Some(l) && parsed_input_ok("41.90"@, l@)
        &&& u.quote.currency@ == stock.currency@
        &&& u.quote.timestamp == timestamp
        &&& opt_text(u.quote.symbol) == Some(stock.symbol@)
        &&& opt_text(u.quote.short_name) == Some(stock.short_name@)
        &&& opt_text(u.quote.updated_time) == Some(updated_time)
        &&& u.connection == ConnectionState::Live
    }
    &&& r matches Err(e) ==> e matches ProviderError::InvalidQuote(d) && is_mock_error(tick, d)
}

impl MockQuoteProvider {
    /// The next demo quote: the cycle's price, previous close 42.20, day range
    /// 41.90–43.10, the stock's identity and currency, always live.
    pub fn next_quote(&mut self, stock: &StockConfig, timestamp: i64, updated_time: &str) -> (r:
        Result<ProviderUpdate, ProviderError>)
        ensures
            final(self)@ == if old(self)@ == usize::MAX {
                0
            } else {
                old(self)@ + 1
            },
            r is Ok <==> (acceptable_input(mock_price_text(old(self)@)) && acceptable_input(
                "42.20"@,
            ) && acceptable_input("43.10"@) && acceptable_input("41.90"@)),
            r matches Ok(u) ==> {
                &&& parsed_input_ok(mock_price_text(old(self)@), u.quote.last_price@)
                &&& parsed_input_ok("42.20"@, u.quote.previous_close@)
                &&& u.quote.day_high matches Some(h) && parsed_input_ok("43.10"@, h@)
                &&& u.quote.day_low matches Some(l) && parsed_input_ok("41.90"@, l@)
                &&& u.quote.currency@ == stock.currency@
                &&& u.quote.timestamp == timestamp
                &&& opt_text(u.quote.symbol) == Some(stock.symbol@)
                &&& opt_text(u.quote.short_name) == Some(stock.short_name@)
                &&& opt_text(u.quote.updated_time) == Some(updated_time@)
                &&& u.connection == ConnectionState::Live
            },
            r matches Err(e) ==> e matches ProviderError::InvalidQuote(d) && is_mock_error(
                old(self)@,
                d,
            ),
    {
        let cents: i64 = 4_220 + mock_offset(self.tick % 16);
        self.tick = if self.tick == usize::MAX {
            0
        } else {
            self.tick + 1
        };
        let price = crate::decimal::Decimal::new(cents, 2);
        let last_price = crate::decimal::decimal_to_string(price);
        assert(price@ == (cents as nat, 2nat, false));
        let quote = match QuoteSnapshot::try_new(
            last_price.as_str(),
            "42.20",
            stock.currency.as_str(),
            timestamp,
        ) {
            Ok(q) => q,
            Err(e) => return Err(ProviderError::from_domain(e)),
        };
        let quote = quote.with_identity(stock.symbol.as_str(), stock.short_name.as_str());
        let quote = match quote.with_day_range("43.10", "41.90") {
            Ok(q) => q,
            Err(e) => return Err(ProviderError::from_domain(e)),
        };
        let quote = quote.with_updated_time(updated_time);
        Ok(ProviderUpdate { quote, connection: ConnectionState::Live })
    }
}

impl QuoteProvider for MockQuoteProvider {
    fn next_quote(&mut self, stock: &StockConfig, timestamp: i64, updated_time: &str) -> (r: Result<
        ProviderUpdate,
        ProviderError,
    >)
        ensures
            final(self)@ == next_tick(old(self)@),
            is_mock_outcome(old(self)@, *stock, timestamp, updated_time@, r),
    {
        MockQuoteProvider::next_quote(self, stock, timestamp, updated_time)
    }
}

/// The broker feed, which has no credentials yet: it always refuses.
#[derive(Debug, Default)]
pub struct LongbridgeQuoteProvider;

impl LongbridgeQuoteProvider {
    /// Always fails with `NotConfigured`, so an unfinished feed never passes for a live one.
    pub fn next_quote(&mut self, stock: &StockConfig, timestamp: i64, updated_time: &str) -> (r:
        Result<ProviderUpdate, ProviderError>)
        ensures
            r matches Err(ProviderError::NotConfigured),
    {
        Err(ProviderError::NotConfigured)
    }
}

impl QuoteProvider for LongbridgeQuoteProvider {
    fn next_quote(&mut self, stock: &StockConfig, timestamp: i64, updated_time: &str) -> (r: Result<
        ProviderUpdate,
        ProviderError,
    >)
        ensures
            r matches Err(ProviderError::NotConfigured),
    {
        LongbridgeQuoteProvider::next_quote(self, stock, timestamp, updated_time)
    }
}

} // verus!
