//! Fixed-point decimal numbers.
//!
//! A [`Decimal`] holds what a `rust_decimal::Decimal` holds, as plain values:
//! a 96-bit magnitude, a scale (the number of fractional digits, at most 28)
//! and a sign flag. Its value is `±magnitude / 10^scale`. The sign flag is kept
//! even for zero, because the outside number type distinguishes `-0` from `0`
//! when printing. Arithmetic, rounding, parsing and printing are done by
//! `rust_decimal`, reached through the trusted wrappers at the end of this file.

use vstd::prelude::*;

verus! {

/// One more than the largest magnitude a decimal can hold (2^96).
pub open spec fn magnitude_limit() -> nat {
    0x1_0000_0000_0000_0000_0000_0000
}

/// The largest scale a decimal can have.
pub open spec fn max_scale() -> nat {
    28
}

/// `10^n`.
pub open spec fn pow10(n: nat) -> nat
    decreases n,
{
    if n == 0 {
        1
    } else {
        10 * pow10((n - 1) as nat)
    }
}

/// A decimal as plain values: (magnitude, scale, sign flag).
pub type DecimalModel = (nat, nat, bool);

/// The signed mantissa: the value times `10^scale`.
pub open spec fn signed_mantissa(d: DecimalModel) -> int {
    if d.2 {
        -(d.0 as int)
    } else {
        d.0 as int
    }
}

/// Whether the value of `a` is at most the value of `b`.
pub open spec fn value_le(a: DecimalModel, b: DecimalModel) -> bool {
    signed_mantissa(a) * pow10(b.1) <= signed_mantissa(b) * pow10(a.1)
}

/// Whether `a` and `b` have the same value (`-0` equals `0`, `30` equals `30.00`).
pub open spec fn value_eq(a: DecimalModel, b: DecimalModel) -> bool {
    value_le(a, b) && value_le(b, a)
}

/// The decimal digits of `n`, most significant first; empty for zero.
pub open spec fn digits(n: nat) -> Seq<char>
    decreases n,
{
    if n == 0 {
        Seq::empty()
    } else {
        digits(n / 10).push(digit_char(n % 10))
    }
}

/// The character for a digit below ten.
pub open spec fn digit_char(d: nat) -> char {
    if d == 0 {
        '0'
    } else if d == 1 {
        '1'
    } else if d == 2 {
        '2'
    } else if d == 3 {
        '3'
    } else if d == 4 {
        '4'
    } else if d == 5 {
        '5'
    } else if d == 6 {
        '6'
    } else if d == 7 {
        '7'
    } else if d == 8 {
        '8'
    } else {
        '9'
    }
}

/// The decimal text of `n` with no leading zeros ("0" for zero).
pub open spec fn nat_text(n: nat) -> Seq<char> {
    if n == 0 {
        seq!['0']
    } else {
        digits(n)
    }
}

/// `s` left-padded with `'0'` to at least `width` characters.
pub open spec fn zero_pad(s: Seq<char>, width: nat) -> Seq<char> {
    if s.len() >= width {
        s
    } else {
        Seq::new((width - s.len()) as nat, |i: int| '0') + s
    }
}

/// How a decimal prints: a `-` when the sign flag is set, the whole part, and,
/// when the scale is positive, a point followed by exactly `scale` digits.
pub open spec fn decimal_text(d: DecimalModel) -> Seq<char> {
    let sign = if d.2 {
        seq!['-']
    } else {
        Seq::empty()
    };
    let whole = nat_text(d.0 / pow10(d.1));
    if d.1 == 0 {
        sign + whole
    } else {
        sign + whole + seq!['.'] + zero_pad(digits(d.0 % pow10(d.1)), d.1)
    }
}

/// Rounding to `dp` fractional digits, ties to even; a non-zero value that
/// rounds to zero loses its sign, a zero keeps it.
pub open spec fn round_dp_model(d: DecimalModel, dp: nat) -> DecimalModel {
    if d.1 <= dp {
        d
    } else if d.0 == 0 {
        (0, dp, d.2)
    } else {
        let k = (d.1 - dp) as nat;
        let q = d.0 / pow10(k);
        let r = d.0 % pow10(k);
        let half = 5 * pow10((k - 1) as nat);
        let rounded = if r > half || (r == half && q % 2 == 1) {
            q + 1
        } else {
            q
        };
        (rounded, dp, if rounded == 0 {
            false
        } else {
            d.2
        })
    }
}

/// Trailing fractional zeros stripped; zero becomes `0` with no sign.
pub open spec fn normalize_model(d: DecimalModel) -> DecimalModel
    decreases d.1,
{
    if d.0 == 0 {
        (0, 0, false)
    } else if d.1 > 0 && d.0 % 10 == 0 {
        normalize_model((d.0 / 10, (d.1 - 1) as nat, d.2))
    } else {
        d
    }
}

/// The model of an exact sum or difference of `a` and `±b`, aligned to the larger
/// scale, when it and both aligned operands fit in 96 bits.
pub open spec fn aligned_mantissa(d: DecimalModel, scale: nat) -> int {
    signed_mantissa(d) * pow10((scale - d.1) as nat)
}

pub open spec fn max_nat(a: nat, b: nat) -> nat {
    if a >= b {
        a
    } else {
        b
    }
}

pub open spec fn abs_int(x: int) -> nat {
    if x < 0 {
        (-x) as nat
    } else {
        x as nat
    }
}

/// Whether the aligned operands and the aligned result of `a + s·b`
/// (`s` being -1 when `subtract`) all fit in 96 bits.
pub open spec fn aligned_fits(a: DecimalModel, b: DecimalModel, subtract: bool) -> bool {
    let m = max_nat(a.1, b.1);
    let x = aligned_mantissa(a, m);
    let y = aligned_mantissa(b, m);
    let sum = if subtract {
        x - y
    } else {
        x + y
    };
    abs_int(x) < magnitude_limit() && abs_int(y) < magnitude_limit() && abs_int(sum)
        < magnitude_limit()
}

/// The exact model of `a + s·b` at the larger scale.
pub open spec fn aligned_result(a: DecimalModel, b: DecimalModel, subtract: bool) -> DecimalModel {
    let m = max_nat(a.1, b.1);
    let x = aligned_mantissa(a, m);
    let y = aligned_mantissa(b, m);
    let sum = if subtract {
        x - y
    } else {
        x + y
    };
    (abs_int(sum), m, sum < 0)
}

/// Whether `q` is exactly `a ÷ k` by value: `q × k` equals `a` once both are at a
/// common scale, with `a`'s sign unless the quotient is zero.
pub open spec fn is_exact_quotient(q: DecimalModel, a: DecimalModel, k: nat) -> bool {
    &&& q.0 * k * pow10(a.1) == a.0 * pow10(q.1)
    &&& q.2 == (a.2 && q.0 != 0)
}

/// Whether `a ÷ k` is a division that `rust_decimal` carries out exactly: a dividend of
/// at most 64 bits and scale at most 19, and a positive divisor of `10^9`.
pub open spec fn exact_division_case(a: DecimalModel, k: nat) -> bool {
    &&& 1 <= k <= 1_000_000_000
    &&& 1_000_000_000nat % k == 0
    &&& a.0 < 0x1_0000_0000_0000_0000
    &&& a.1 <= 19
}

/// The model of an optional decimal.
pub open spec fn opt_model(r: Option<Decimal>) -> Option<DecimalModel> {
    match r {
        Some(d) => Some(d@),
        None => None,
    }
}

/// The result `rust_decimal` gives for `a * b` (`None` on overflow).
pub uninterp spec fn decimal_product(a: DecimalModel, b: DecimalModel) -> Option<DecimalModel>;

/// The result `rust_decimal` gives for `a + b` (`None` on overflow).
pub uninterp spec fn decimal_sum(a: DecimalModel, b: DecimalModel) -> Option<DecimalModel>;

/// The result `rust_decimal` gives for `a - b` (`None` on overflow).
pub uninterp spec fn decimal_difference(a: DecimalModel, b: DecimalModel) -> Option<DecimalModel>;

/// The result `rust_decimal` gives for `a / b` (`None` on a zero divisor or overflow).
pub uninterp spec fn decimal_quotient(a: DecimalModel, b: DecimalModel) -> Option<DecimalModel>;

/// The result `rust_decimal` gives for parsing `text` (`None` when it is refused).
pub uninterp spec fn decimal_parsed(text: Seq<char>) -> Option<DecimalModel>;

/// The largest shift `k <= n` for which `m * 10^k` fits in 96 bits (0 when none does).
pub open spec fn fitting_shift(m: nat, n: nat) -> nat
    decreases n,
{
    if n == 0 || m * pow10(n) < magnitude_limit() {
        n
    } else {
        fitting_shift(m, (n - 1) as nat)
    }
}

/// `d` with its scale raised toward `scale` as far as the padded magnitude still fits
/// in 96 bits.
pub open spec fn decimal_rescaled(d: DecimalModel, scale: nat) -> DecimalModel {
    let k = fitting_shift(d.0, (scale - d.1) as nat);
    ((d.0 * pow10(k)) as nat, d.1 + k, d.2)
}

/// A fixed-point decimal number: `±magnitude / 10^scale`.
#[derive(Clone, Copy, Debug)]
pub struct Decimal {
    magnitude: u128,
    scale: u32,
    negative: bool,
}

impl View for Decimal {
    type V = DecimalModel;

    closed spec fn view(&self) -> DecimalModel {
        (self.magnitude as nat, self.scale as nat, self.negative)
    }
}

impl Decimal {
    /// Every decimal's magnitude fits in 96 bits and its scale is at most 28.
    #[verifier::type_invariant]
    pub open spec fn well_formed(self) -> bool {
        self@.0 < magnitude_limit() && self@.1 <= max_scale()
    }

    /// The magnitude (the absolute value times `10^scale`).
    pub fn magnitude(&self) -> (r: u128)
        ensures
            r == self@.0,
    {
        self.magnitude
    }

    /// The number of fractional digits.
    pub fn scale(&self) -> (r: u32)
        ensures
            r == self@.1,
    {
        self.scale
    }

    /// Whether the sign flag is set (also for `-0`).
    pub fn is_sign_negative(&self) -> (r: bool)
        ensures
            r == self@.2,
    {
        self.negative
    }

    /// Whether the sign flag is clear.
    pub fn is_sign_positive(&self) -> (r: bool)
        ensures
            r == !self@.2,
    {
        !self.negative
    }

    /// Whether the value is zero (of either sign and any scale).
    pub fn is_zero(&self) -> (r: bool)
        ensures
            r == (self@.0 == 0),
    {
        self.magnitude == 0
    }

    /// The same magnitude and scale with the sign flag cleared.
    pub fn abs(&self) -> (r: Decimal)
        ensures
            r@ == (self@.0, self@.1, false),
    {
        proof {
            use_type_invariant(self);
        }
        Decimal { magnitude: self.magnitude, scale: self.scale, negative: false }
    }

    /// The whole number `n`.
    pub fn from_u64(n: u64) -> (r: Decimal)
        ensures
            r@ == (n as nat, 0nat, false),
    {
        Decimal { magnitude: n as u128, scale: 0, negative: false }
    }

    /// `mantissa / 10^scale` for a mantissa of at most 64 bits.
    pub fn new(mantissa: i64, scale: u32) -> (r: Decimal)
        requires
            scale <= max_scale(),
        ensures
            signed_mantissa(r@) == mantissa,
            r@.1 == scale,
            r@.2 == (mantissa < 0),
    {
        if mantissa < 0 {
            let m: u128 = (0 - (mantissa as i128)) as u128;
            Decimal { magnitude: m, scale, negative: true }
        } else {
            Decimal { magnitude: mantissa as u128, scale, negative: false }
        }
    }

    /// Zero, with scale 0 and no sign.
    pub fn zero() -> (r: Decimal)
        ensures
            r@ == (0nat, 0nat, false),
    {
        Decimal { magnitude: 0, scale: 0, negative: false }
    }

    /// The decimal `±magnitude / 10^scale`, when the magnitude fits in 96 bits and the
    /// scale is at most 28.
    pub fn from_parts(magnitude: u128, scale: u32, negative: bool) -> (r: Option<Decimal>)
        ensures
            r is Some <==> (magnitude < magnitude_limit() && scale <= max_scale()),
            r matches Some(d) ==> d@ == (magnitude as nat, scale as nat, negative),
    {
        if magnitude < 0x1_0000_0000_0000_0000_0000_0000 && scale <= 28 {
            Some(Decimal { magnitude, scale, negative })
        } else {
            None
        }
    }

    /// Reads decimal text as `rust_decimal` does; `None` when it is refused.
    pub fn parse(text: &str) -> (r: Option<Decimal>)
        ensures
            opt_model(r) == decimal_parsed(text@),
    {
        parse_decimal(text)
    }

    /// Whether the value of this decimal is at most that of `other`.
    pub fn at_most(&self, other: &Decimal) -> (r: bool)
        ensures
            r == value_le(self@, other@),
    {
        decimal_le(*self, *other)
    }

    /// The text of the decimal, as `rust_decimal` prints it.
    pub fn to_string(&self) -> (r: String)
        ensures
            r@ == decimal_text(self@),
    {
        decimal_to_string(*self)
    }

    /// The decimal rounded to `dp` fractional digits, ties to even.
    pub fn round_dp(&self, dp: u32) -> (r: Decimal)
        ensures
            r@ == round_dp_model(self@, dp as nat),
    {
        round_dp(*self, dp)
    }

    /// One hundred, with scale 0.
    pub fn one_hundred() -> (r: Decimal)
        ensures
            r@ == (100nat, 0nat, false),
    {
        Decimal { magnitude: 100, scale: 0, negative: false }
    }
}

/// Parses decimal text with `rust_decimal`'s `FromStr`.
///
/// Calls `<rust_decimal::Decimal as FromStr>::from_str`; the contract claims only
/// that the outcome is the named function of the text.
#[verifier::external_body]
pub(crate) fn parse_decimal(text: &str) -> (r: Option<Decimal>)
    ensures
        opt_model(r) == decimal_parsed(text@),
{
    match <rust_decimal::Decimal as std::str::FromStr>::from_str(text) {
        Ok(d) => Some(Decimal {
            magnitude: d.mantissa().unsigned_abs(),
            scale: d.scale(),
            negative: d.is_sign_negative(),
        }),
        Err(_) => None,
    }
}

/// Prints a decimal with `rust_decimal`'s `Display`.
///
/// Calls `<rust_decimal::Decimal as Display>::fmt` through `to_string`; the contract
/// claims the plain positional text: the sign when the sign flag is set, the whole
/// part, and exactly `scale` fractional digits.
#[verifier::external_body]
pub(crate) fn decimal_to_string(d: Decimal) -> (r: String)
    ensures
        r@ == decimal_text(d@),
{
    let mut x = rust_decimal::Decimal::from_i128_with_scale(d.magnitude as i128, d.scale);
    x.set_sign_negative(d.negative);
    x.to_string()
}

/// `a <= b` by value.
///
/// Calls `<rust_decimal::Decimal as PartialOrd>::le`; the contract claims a comparison
/// of values, in which `-0` equals `0` and trailing zeros do not matter.
#[verifier::external_body]
pub(crate) fn decimal_le(a: Decimal, b: Decimal) -> (r: bool)
    ensures
        r == value_le(a@, b@),
{
    let mut x = rust_decimal::Decimal::from_i128_with_scale(a.magnitude as i128, a.scale);
    x.set_sign_negative(a.negative);
    let mut y = rust_decimal::Decimal::from_i128_with_scale(b.magnitude as i128, b.scale);
    y.set_sign_negative(b.negative);
    x <= y
}

/// `a * b`, or `None` where the `*` operator would panic on overflow.
///
/// Calls `rust_decimal::Decimal::checked_mul`. Claims: the outcome is the named
/// product; a zero factor gives an unsigned zero of scale 0; when neither factor is
/// zero and the exact product fits in 96 bits with a scale of at most 28, it is
/// exact, at the sum of the scales, negative when exactly one factor is.
#[verifier::external_body]
pub(crate) fn checked_mul(a: Decimal, b: Decimal) -> (r: Option<Decimal>)
    ensures
        opt_model(r) == decimal_product(a@, b@),
        (a@.0 == 0 || b@.0 == 0) ==> opt_model(r) == Some((0nat, 0nat, false)),
        (a@.0 != 0 && b@.0 != 0 && a@.0 * b@.0 < magnitude_limit() && a@.1 + b@.1
            <= max_scale()) ==> opt_model(r) == Some(
            ((a@.0 * b@.0) as nat, (a@.1 + b@.1) as nat, a@.2 != b@.2),
        ),
{
    let mut x = rust_decimal::Decimal::from_i128_with_scale(a.magnitude as i128, a.scale);
    x.set_sign_negative(a.negative);
    let mut y = rust_decimal::Decimal::from_i128_with_scale(b.magnitude as i128, b.scale);
    y.set_sign_negative(b.negative);
    x.checked_mul(y).map(|d| Decimal { magnitude: d.mantissa().unsigned_abs(), scale: d.scale(), negative: d.is_sign_negative() })
}

/// `a + b`, or `None` where the `+` operator would panic on overflow.
///
/// Calls `rust_decimal::Decimal::checked_add`. Claims: the outcome is the named sum;
/// adding to a zero `a` gives `b` unchanged (scale and sign included); adding a zero
/// `b` to a non-zero `a` gives `a` unchanged; when both are non-zero and the operands aligned to the larger scale, and their
/// sum, fit in 96 bits, the sum is exact at the larger scale, with the sign of the
/// result (an exact zero has no sign).
#[verifier::external_body]
pub(crate) fn checked_add(a: Decimal, b: Decimal) -> (r: Option<Decimal>)
    ensures
        opt_model(r) == decimal_sum(a@, b@),
        a@.0 == 0 ==> opt_model(r) == Some(b@),
        (a@.0 != 0 && b@.0 == 0) ==> opt_model(r) == Some(a@),
        (a@.0 != 0 && b@.0 != 0 && aligned_fits(a@, b@, false)) ==> opt_model(r) == Some(
            aligned_result(a@, b@, false),
        ),
{
    let mut x = rust_decimal::Decimal::from_i128_with_scale(a.magnitude as i128, a.scale);
    x.set_sign_negative(a.negative);
    let mut y = rust_decimal::Decimal::from_i128_with_scale(b.magnitude as i128, b.scale);
    y.set_sign_negative(b.negative);
    x.checked_add(y).map(|d| Decimal { magnitude: d.mantissa().unsigned_abs(), scale: d.scale(), negative: d.is_sign_negative() })
}

/// `a - b`, or `None` where the `-` operator would panic on overflow.
///
/// Calls `rust_decimal::Decimal::checked_sub`. Claims: the outcome is the named
/// difference; subtracting a non-zero `b` from a zero `a` gives `b` with its sign flag
/// flipped, and a zero `b` from a zero `a` gives `b` unchanged; subtracting a zero `b`
/// from a non-zero `a` gives `a` unchanged; when both are non-zero and
/// the operands aligned to the larger scale, and their difference, fit in 96 bits,
/// the difference is exact at the larger scale (an exact zero has no sign).
#[verifier::external_body]
pub(crate) fn checked_sub(a: Decimal, b: Decimal) -> (r: Option<Decimal>)
    ensures
        opt_model(r) == decimal_difference(a@, b@),
        (a@.0 == 0 && b@.0 == 0) ==> opt_model(r) == Some(b@),
        (a@.0 == 0 && b@.0 != 0) ==> opt_model(r) == Some((b@.0, b@.1, !b@.2)),
        (a@.0 != 0 && b@.0 == 0) ==> opt_model(r) == Some(a@),
        (a@.0 != 0 && b@.0 != 0 && aligned_fits(a@, b@, true)) ==> opt_model(r)
            == Some(aligned_result(a@, b@, true)),
{
    let mut x = rust_decimal::Decimal::from_i128_with_scale(a.magnitude as i128, a.scale);
    x.set_sign_negative(a.negative);
    let mut y = rust_decimal::Decimal::from_i128_with_scale(b.magnitude as i128, b.scale);
    y.set_sign_negative(b.negative);
    x.checked_sub(y).map(|d| Decimal { magnitude: d.mantissa().unsigned_abs(), scale: d.scale(), negative: d.is_sign_negative() })
}

/// `a / b`, or `None` where the `/` operator would panic (zero divisor, overflow).
///
/// Calls `rust_decimal::Decimal::checked_div`. Claims: the outcome is the named
/// quotient; a zero divisor gives `None`; a zero dividend over a non-zero divisor
/// gives an unsigned zero of scale 0; a divisor of absolute value at least one never
/// overflows; and a dividend of at most 64 bits and scale at most 19 divided by a
/// positive whole divisor of `10^9` is exact (the remainder loop scales the quotient
/// by `10^9` once, which leaves no remainder, then strips trailing zeros). How other
/// quotients are rounded is left unsaid.
#[verifier::external_body]
pub(crate) fn checked_div(a: Decimal, b: Decimal) -> (r: Option<Decimal>)
    ensures
        opt_model(r) == decimal_quotient(a@, b@),
        b@.0 >= pow10(b@.1) ==> r is Some,
        b@.0 == 0 ==> r is None,
        (a@.0 == 0 && b@.0 != 0) ==> opt_model(r) == Some((0nat, 0nat, false)),
        (b@.1 == 0 && !b@.2 && exact_division_case(a@, b@.0)) ==> r is Some
            && is_exact_quotient(r->0@, a@, b@.0),
{
    let mut x = rust_decimal::Decimal::from_i128_with_scale(a.magnitude as i128, a.scale);
    x.set_sign_negative(a.negative);
    let mut y = rust_decimal::Decimal::from_i128_with_scale(b.magnitude as i128, b.scale);
    y.set_sign_negative(b.negative);
    x.checked_div(y).map(|d| Decimal { magnitude: d.mantissa().unsigned_abs(), scale: d.scale(), negative: d.is_sign_negative() })
}

/// Rounds to `dp` fractional digits, ties to even.
///
/// Calls `rust_decimal::Decimal::round_dp`; the contract claims the banker's rounding
/// of the source: unchanged when the scale is at most `dp`; otherwise the magnitude
/// is divided by `10^(scale-dp)`, rounded half to even, at scale `dp`.
#[verifier::external_body]
pub(crate) fn round_dp(d: Decimal, dp: u32) -> (r: Decimal)
    ensures
        r@ == round_dp_model(d@, dp as nat),
{
    let mut x = rust_decimal::Decimal::from_i128_with_scale(d.magnitude as i128, d.scale);
    x.set_sign_negative(d.negative);
    let y = x.round_dp(dp);
    Decimal { magnitude: y.mantissa().unsigned_abs(), scale: y.scale(), negative: y.is_sign_negative() }
}

/// Raises the scale of `d` to `scale`, padding the magnitude with zeros.
///
/// Calls `rust_decimal::Decimal::rescale`. Claims: the sign is kept; a zero only
/// takes the new scale; when the padded magnitude fits in 96 bits it is exact; beyond
/// that, the scale is raised only as far as the padded magnitude still fits.
#[verifier::external_body]
pub(crate) fn rescale_up(d: Decimal, scale: u32) -> (r: Decimal)
    requires
        d@.1 <= scale <= max_scale(),
    ensures
        d@.0 == 0 ==> r@ == (0nat, scale as nat, d@.2),
        (d@.0 != 0 && d@.0 * pow10((scale - d@.1) as nat) < magnitude_limit()) ==> r@ == (
            (d@.0 * pow10((scale - d@.1) as nat)) as nat,
            scale as nat,
            d@.2,
        ),
        (d@.0 != 0 && d@.0 * pow10((scale - d@.1) as nat) >= magnitude_limit()) ==> r@
            == decimal_rescaled(d@, scale as nat),
{
    let mut x = rust_decimal::Decimal::from_i128_with_scale(d.magnitude as i128, d.scale);
    x.set_sign_negative(d.negative);
    x.rescale(scale);
    Decimal { magnitude: x.mantissa().unsigned_abs(), scale: x.scale(), negative: x.is_sign_negative() }
}

/// Strips trailing fractional zeros and turns `-0` into `0`.
///
/// Calls `rust_decimal::Decimal::normalize`; the contract claims exactly that.
#[verifier::external_body]
pub(crate) fn normalize(d: Decimal) -> (r: Decimal)
    ensures
        r@ == normalize_model(d@),
{
    let mut x = rust_decimal::Decimal::from_i128_with_scale(d.magnitude as i128, d.scale);
    x.set_sign_negative(d.negative);
    let y = x.normalize();
    Decimal { magnitude: y.mantissa().unsigned_abs(), scale: y.scale(), negative: y.is_sign_negative() }
}


/// `10^n` is positive.
pub proof fn lemma_pow10_positive(n: nat)
    ensures
        pow10(n) > 0,
    decreases n,
{
    if n > 0 {
        lemma_pow10_positive((n - 1) as nat);
    }
}

/// `10^(a+b) = 10^a · 10^b`.
pub proof fn lemma_pow10_add(a: nat, b: nat)
    ensures
        pow10(a + b) == pow10(a) * pow10(b),
    decreases a,
{
    if a > 0 {
        lemma_pow10_add((a - 1) as nat, b);
        assert(pow10(a + b) == 10 * pow10((a - 1 + b) as nat));
        assert(pow10(a) == 10 * pow10((a - 1) as nat));
        assert(10 * (pow10((a - 1) as nat) * pow10(b)) == (10 * pow10((a - 1) as nat)) * pow10(b))
            by (nonlinear_arith);
    } else {
        assert(pow10(0) == 1);
    }
}

/// The normal form of a non-zero decimal: the same sign, a scale no larger, the
/// magnitude divided by a power of ten, and no trailing zero left to strip.
proof fn lemma_normalize_shape(d: DecimalModel)
    requires
        d.0 != 0,
    ensures
        normalize_model(d).0 != 0,
        normalize_model(d).1 <= d.1,
        normalize_model(d).2 == d.2,
        normalize_model(d).0 * pow10((d.1 - normalize_model(d).1) as nat) == d.0,
        normalize_model(d).1 == 0 || normalize_model(d).0 % 10 != 0,
    decreases d.1,
{
    if d.1 > 0 && d.0 % 10 == 0 {
        let e: DecimalModel = (d.0 / 10, (d.1 - 1) as nat, d.2);
        assert(e.0 != 0);
        lemma_normalize_shape(e);
        let n = normalize_model(e);
        assert(normalize_model(d) == n);
        let k = (e.1 - n.1) as nat;
        assert((d.1 - n.1) as nat == k + 1);
        lemma_pow10_add(k, 1);
        assert(pow10(0) == 1);
        assert(pow10(1) == 10);
        assert(d.0 == e.0 * 10);
        assert(n.0 * pow10(k + 1) == (n.0 * pow10(k)) * 10) by (nonlinear_arith)
            requires
                pow10(k + 1) == pow10(k) * 10,
        ;
        assert(n.0 * pow10(k) == e.0);
        assert(n.0 * pow10((d.1 - n.1) as nat) == d.0);
    } else {
        assert(normalize_model(d) == d);
        assert(pow10(0) == 1);
        assert(d.0 * pow10(0) == d.0) by (nonlinear_arith)
            requires
                pow10(0) == 1,
        ;
        assert((d.1 - d.1) as nat == 0);
    }
}

/// Two normal forms of the same value are equal.
proof fn lemma_normal_forms_equal(x: nat, s: nat, y: nat, t: nat)
    requires
        x != 0,
        y != 0,
        s == 0 || x % 10 != 0,
        t == 0 || y % 10 != 0,
        x * pow10(t) == y * pow10(s),
    ensures
        x == y && s == t,
{
    lemma_pow10_positive(s);
    lemma_pow10_positive(t);
    if s < t {
        let k = (t - s) as nat;
        lemma_pow10_add(s, k);
        lemma_pow10_positive(k);
        assert(y == x * pow10(k)) by (nonlinear_arith)
            requires
                x * pow10(t) == y * pow10(s),
                pow10(t) == pow10(s) * pow10(k),
                pow10(s) > 0,
        ;
        assert(pow10(k) == 10 * pow10((k - 1) as nat));
        let z = x * pow10((k - 1) as nat);
        assert(y == z * 10) by (nonlinear_arith)
            requires
                y == x * pow10(k),
                pow10(k) == 10 * pow10((k - 1) as nat),
                z == x * pow10((k - 1) as nat),
        ;
        vstd::arithmetic::div_mod::lemma_mod_multiples_basic(z as int, 10);
    } else if t < s {
        let k = (s - t) as nat;
        lemma_pow10_add(t, k);
        lemma_pow10_positive(k);
        assert(x == y * pow10(k)) by (nonlinear_arith)
            requires
                x * pow10(t) == y * pow10(s),
                pow10(s) == pow10(t) * pow10(k),
                pow10(t) > 0,
        ;
        assert(pow10(k) == 10 * pow10((k - 1) as nat));
        let z = y * pow10((k - 1) as nat);
        assert(x == z * 10) by (nonlinear_arith)
            requires
                x == y * pow10(k),
                pow10(k) == 10 * pow10((k - 1) as nat),
                z == y * pow10((k - 1) as nat),
        ;
        vstd::arithmetic::div_mod::lemma_mod_multiples_basic(z as int, 10);
    } else {
        assert(x == y) by (nonlinear_arith)
            requires
                x * pow10(t) == y * pow10(s),
                s == t,
                pow10(s) > 0,
        ;
    }
}

/// Decimals of equal value normalize to the same decimal: `30`, `30.0` and `30.00`
/// all become `30`, and `-0` becomes `0`.
pub proof fn lemma_normalize_value_eq(a: DecimalModel, b: DecimalModel)
    requires
        value_eq(a, b),
    ensures
        normalize_model(a) == normalize_model(b),
{
    lemma_pow10_positive(a.1);
    lemma_pow10_positive(b.1);
    let pa = pow10(a.1);
    let pb = pow10(b.1);
    let ma = signed_mantissa(a);
    let mb = signed_mantissa(b);
    assert(ma * pb == mb * pa);
    if a.0 == 0 || b.0 == 0 {
        if a.0 == 0 {
            assert(ma == 0);
            assert(ma * pb == 0) by (nonlinear_arith)
                requires
                    ma == 0,
            ;
            assert(mb == 0) by (nonlinear_arith)
                requires
                    0 == mb * pa,
                    pa > 0,
            ;
        } else {
            assert(mb == 0);
            assert(mb * pa == 0) by (nonlinear_arith)
                requires
                    mb == 0,
            ;
            assert(ma == 0) by (nonlinear_arith)
                requires
                    ma * pb == 0,
                    pb > 0,
            ;
        }
    } else {
        assert(a.2 == b.2 && a.0 * pb == b.0 * pa) by (nonlinear_arith)
            requires
                ma * pb == mb * pa,
                pa > 0,
                pb > 0,
                a.0 > 0,
                b.0 > 0,
                ma == (if a.2 { -(a.0 as int) } else { a.0 as int }),
                mb == (if b.2 { -(b.0 as int) } else { b.0 as int }),
        ;
        lemma_normalize_shape(a);
        lemma_normalize_shape(b);
        let na = normalize_model(a);
        let nb = normalize_model(b);
        let u = (a.1 - na.1) as nat;
        let v = (b.1 - nb.1) as nat;
        lemma_pow10_add(na.1, u);
        lemma_pow10_add(nb.1, v);
        lemma_pow10_positive(u);
        lemma_pow10_positive(v);
        assert(a.1 == na.1 + u && b.1 == nb.1 + v);
        let pu = pow10(u);
        let pv = pow10(v);
        let ps = pow10(na.1);
        let pt = pow10(nb.1);
        assert(na.0 * pt == nb.0 * ps) by (nonlinear_arith)
            requires
                a.0 * pb == b.0 * pa,
                na.0 * pu == a.0,
                nb.0 * pv == b.0,
                pa == ps * pu,
                pb == pt * pv,
                pu > 0,
                pv > 0,
        ;
        lemma_normal_forms_equal(na.0, na.1, nb.0, nb.1);
    }
}

/// The value of a run of decimal digits.
pub open spec fn digits_value(s: Seq<char>) -> nat
    decreases s.len(),
{
    if s.len() == 0 {
        0
    } else {
        digits_value(s.drop_last()) * 10 + (s.last() as nat - '0' as nat) as nat
    }
}

/// Whether every character is an ASCII digit.
pub open spec fn all_digits(c: Seq<char>) -> bool {
    forall|j: int| 0 <= j < c.len() ==> '0' <= #[trigger] c[j] <= '9'
}

/// A digit character's value.
proof fn lemma_digit_char(v: nat)
    requires
        v < 10,
    ensures
        '0' <= digit_char(v) <= '9',
        (digit_char(v) as nat - '0' as nat) as nat == v,
        digit_char(v) as nat >= '0' as nat,
{
}

/// The digits of `n` are digits, read back as `n`, and number at most `k` when `n`
/// is below `10^k`.
proof fn lemma_digits(n: nat, k: nat)
    ensures
        all_digits(digits(n)),
        digits_value(digits(n)) == n,
        n < pow10(k) ==> digits(n).len() <= k,
    decreases n,
{
    if n > 0 {
        let k1: nat = if k > 0 {
            (k - 1) as nat
        } else {
            0
        };
        lemma_digits(n / 10, k1);
        lemma_digit_char(n % 10);
        let d = digits(n);
        assert(d.drop_last() =~= digits(n / 10));
        assert forall|j: int| 0 <= j < d.len() implies '0' <= #[trigger] d[j] <= '9' by {
            if j < d.len() - 1 {
                assert(d[j] == digits(n / 10)[j]);
            }
        }
        if n < pow10(k) {
            if k == 0 {
                assert(pow10(0) == 1);
            } else {
                assert(pow10(k) == 10 * pow10(k1));
                assert(n / 10 < pow10(k1));
            }
        }
    }
}

/// Leading zeros do not change a value.
proof fn lemma_leading_zeros(k: nat, x: Seq<char>)
    ensures
        digits_value(Seq::new(k, |i: int| '0') + x) == digits_value(x),
    decreases x.len(), k,
{
    let z = Seq::new(k, |i: int| '0');
    if x.len() == 0 {
        assert(z + x =~= z);
        if k > 0 {
            assert(z.drop_last() =~= Seq::new((k - 1) as nat, |i: int| '0'));
            lemma_leading_zeros((k - 1) as nat, x);
            assert(Seq::new((k - 1) as nat, |i: int| '0') + x =~= Seq::new((k - 1) as nat, |i: int| '0'));
        }
    } else {
        assert((z + x).drop_last() =~= z + x.drop_last());
        lemma_leading_zeros(k, x.drop_last());
    }
}

/// `x` and `y` each followed by `c`, then `p` and `q`: when neither `x` nor `y` holds
/// `c`, equal joins have equal parts.
pub proof fn lemma_split_at(x: Seq<char>, c: char, p: Seq<char>, y: Seq<char>, q: Seq<char>)
    requires
        x + seq![c] + p == y + seq![c] + q,
        forall|j: int| 0 <= j < x.len() ==> x[j] != c,
        forall|j: int| 0 <= j < y.len() ==> y[j] != c,
    ensures
        x == y,
        p == q,
{
    let t = x + seq![c] + p;
    if x.len() < y.len() {
        assert(t[x.len() as int] == c);
        assert((y + seq![c] + q)[x.len() as int] == y[x.len() as int]);
    } else if y.len() < x.len() {
        assert((y + seq![c] + q)[y.len() as int] == c);
        assert(t[y.len() as int] == x[y.len() as int]);
    }
    assert(x =~= t.subrange(0, x.len() as int));
    assert(y =~= (y + seq![c] + q).subrange(0, y.len() as int));
    assert(p =~= t.subrange(x.len() as int + 1, t.len() as int));
    assert(q =~= (y + seq![c] + q).subrange(y.len() as int + 1, t.len() as int));
}

/// The pieces of a decimal's text: the whole part, read back as the magnitude
/// divided by `10^scale`, and the fraction of exactly `scale` digits, read back as
/// the remainder; neither holds a sign or a point.
proof fn lemma_text_parts(d: DecimalModel)
    ensures
        all_digits(nat_text(d.0 / pow10(d.1))),
        digits_value(nat_text(d.0 / pow10(d.1))) == d.0 / pow10(d.1),
        nat_text(d.0 / pow10(d.1)).len() > 0,
        d.1 > 0 ==> zero_pad(digits(d.0 % pow10(d.1)), d.1).len() == d.1,
        d.1 > 0 ==> all_digits(zero_pad(digits(d.0 % pow10(d.1)), d.1)),
        d.1 > 0 ==> digits_value(zero_pad(digits(d.0 % pow10(d.1)), d.1)) == d.0 % pow10(d.1),
{
    lemma_pow10_positive(d.1);
    let w = d.0 / pow10(d.1);
    if w == 0 {
        assert(nat_text(w) == seq!['0']);
        assert(digits_value(seq!['0'].drop_last()) == 0);
        assert(digits_value(seq!['0']) == 0);
    } else {
        lemma_digits(w, 0);
        assert(digits(w).len() > 0);
    }
    if d.1 > 0 {
        let f = d.0 % pow10(d.1);
        lemma_digits(f, d.1);
        let ds = digits(f);
        let z = Seq::new((d.1 - ds.len()) as nat, |i: int| '0');
        assert(zero_pad(ds, d.1) == z + ds);
        lemma_leading_zeros((d.1 - ds.len()) as nat, ds);
        assert forall|j: int| 0 <= j < (z + ds).len() implies '0' <= #[trigger] (z + ds)[j] <= '9' by {
            if j < z.len() {
                assert((z + ds)[j] == '0');
            } else {
                assert((z + ds)[j] == ds[j - z.len()]);
            }
        }
    }
}

/// A decimal's text determines the decimal: its sign, its scale and its magnitude.
pub proof fn lemma_decimal_text_injective(x: DecimalModel, y: DecimalModel)
    requires
        decimal_text(x) == decimal_text(y),
    ensures
        x == y,
{
    lemma_text_parts(x);
    lemma_text_parts(y);
    lemma_pow10_positive(x.1);
    lemma_pow10_positive(y.1);
    let t = decimal_text(x);
    let sx: Seq<char> = if x.2 { seq!['-'] } else { Seq::empty() };
    let sy: Seq<char> = if y.2 { seq!['-'] } else { Seq::empty() };
    let wx = nat_text(x.0 / pow10(x.1));
    let wy = nat_text(y.0 / pow10(y.1));
    assert(wx[0] != '-' && wy[0] != '-') by {
        assert('0' <= wx[0] <= '9');
        assert('0' <= wy[0] <= '9');
    }
    let rx: Seq<char> = if x.1 == 0 { wx } else { wx + seq!['.'] + zero_pad(digits(x.0 % pow10(x.1)), x.1) };
    let ry: Seq<char> = if y.1 == 0 { wy } else { wy + seq!['.'] + zero_pad(digits(y.0 % pow10(y.1)), y.1) };
    assert(t =~= sx + rx);
    assert(decimal_text(y) =~= sy + ry);
    assert(rx[0] == wx[0]);
    assert(ry[0] == wy[0]);
    if x.2 != y.2 {
        if x.2 {
            assert(t[0] == '-');
            assert((sy + ry)[0] == ry[0]);
        } else {
            assert((sy + ry)[0] == '-');
            assert(t[0] == rx[0]);
        }
    }
    assert(rx =~= ry) by {
        assert(sx == sy);
        assert(rx =~= t.subrange(sx.len() as int, t.len() as int));
        assert(ry =~= (sy + ry).subrange(sy.len() as int, t.len() as int));
    }
    assert forall|j: int| 0 <= j < wx.len() implies wx[j] != '.' by {
        assert('0' <= wx[j] <= '9');
    }
    assert forall|j: int| 0 <= j < wy.len() implies wy[j] != '.' by {
        assert('0' <= wy[j] <= '9');
    }
    if x.1 == 0 && y.1 > 0 {
        assert(ry[wy.len() as int] == '.');
        if wy.len() < wx.len() {
            assert(rx[wy.len() as int] == wx[wy.len() as int]);
        }
        assert(false);
    } else if y.1 == 0 && x.1 > 0 {
        assert(rx[wx.len() as int] == '.');
        if wx.len() < wy.len() {
            assert(ry[wx.len() as int] == wy[wx.len() as int]);
        }
        assert(false);
    }
    if x.1 == 0 {
        assert(y.1 == 0);
        assert(pow10(0) == 1);
        assert(pow10(x.1) == 1 && pow10(y.1) == 1);
        assert(x.0 / 1 == x.0 && y.0 / 1 == y.0) by (nonlinear_arith);
        assert(wx == wy);
        assert(x.0 == y.0);
    } else {
        let px = zero_pad(digits(x.0 % pow10(x.1)), x.1);
        let py = zero_pad(digits(y.0 % pow10(y.1)), y.1);
        assert forall|j: int| 0 <= j < px.len() implies px[j] != '.' by {
            assert('0' <= px[j] <= '9');
        }
        lemma_split_at(wx, '.', px, wy, py);
        assert(x.1 == y.1);
        let q = x.0 / pow10(x.1);
        let r = x.0 % pow10(x.1);
        vstd::arithmetic::div_mod::lemma_fundamental_div_mod(x.0 as int, pow10(x.1) as int);
        vstd::arithmetic::div_mod::lemma_fundamental_div_mod(y.0 as int, pow10(y.1) as int);
        assert(x.0 == y.0);
    }
}

/// Decimals whose normal forms coincide have the same value.
pub proof fn lemma_same_normal_form_same_value(a: DecimalModel, b: DecimalModel)
    requires
        normalize_model(a) == normalize_model(b),
    ensures
        value_eq(a, b),
{
    let n = normalize_model(a);
    if a.0 == 0 || b.0 == 0 {
        if a.0 == 0 && b.0 != 0 {
            lemma_normalize_shape(b);
        } else if b.0 == 0 && a.0 != 0 {
            lemma_normalize_shape(a);
        } else {
            assert(signed_mantissa(a) == 0 && signed_mantissa(b) == 0);
            assert(signed_mantissa(a) * pow10(b.1) == 0) by (nonlinear_arith)
                requires
                    signed_mantissa(a) == 0,
            ;
            assert(signed_mantissa(b) * pow10(a.1) == 0) by (nonlinear_arith)
                requires
                    signed_mantissa(b) == 0,
            ;
        }
    } else {
        lemma_normalize_shape(a);
        lemma_normalize_shape(b);
        let u = (a.1 - n.1) as nat;
        let v = (b.1 - n.1) as nat;
        lemma_pow10_add(u, b.1);
        lemma_pow10_add(v, a.1);
        assert(u + b.1 == v + a.1);
        let m: int = if n.2 { -(n.0 as int) } else { n.0 as int };
        assert(signed_mantissa(a) == m * pow10(u)) by (nonlinear_arith)
            requires
                n.0 * pow10(u) == a.0,
                a.2 == n.2,
                m == (if n.2 { -(n.0 as int) } else { n.0 as int }),
                signed_mantissa(a) == (if a.2 { -(a.0 as int) } else { a.0 as int }),
        ;
        assert(signed_mantissa(b) == m * pow10(v)) by (nonlinear_arith)
            requires
                n.0 * pow10(v) == b.0,
                b.2 == n.2,
                m == (if n.2 { -(n.0 as int) } else { n.0 as int }),
                signed_mantissa(b) == (if b.2 { -(b.0 as int) } else { b.0 as int }),
        ;
        assert(signed_mantissa(a) * pow10(b.1) == signed_mantissa(b) * pow10(a.1)) by (nonlinear_arith)
            requires
                signed_mantissa(a) == m * pow10(u),
                signed_mantissa(b) == m * pow10(v),
                pow10(u + b.1) == pow10(u) * pow10(b.1),
                pow10(v + a.1) == pow10(v) * pow10(a.1),
                u + b.1 == v + a.1,
        ;
    }
}

} // verus!
