//! Exact decimal numbers, computed by `rust_decimal`.
//!
//! A `Decimal` holds the parts of a `rust_decimal::Decimal`: a sign, a
//! 96-bit magnitude in three 32-bit words and a scale (number of
//! fractional digits, at most 28).
//! Its value is `±magnitude / 10^scale`. Arithmetic is done by
//! `rust_decimal`; its results are named by the functions below.

use vstd::arithmetic::power::pow;
use vstd::prelude::*;

use crate::error::Error;

verus! {

/// Parts of a decimal: (negative, magnitude, scale).
pub type DecimalParts = (bool, int, int);

/// 2^96, the bound on the magnitude of a decimal.
pub open spec fn magnitude_bound() -> int {
    0x1_0000_0000_0000_0000_0000_0000
}

/// The parts are those of a representable decimal.
pub open spec fn parts_wf(p: DecimalParts) -> bool {
    0 <= p.1 < magnitude_bound() && 0 <= p.2 <= 28
}

/// Signed numerator of the value `numerator / 10^scale`.
pub open spec fn numerator(p: DecimalParts) -> int {
    if p.0 {
        -p.1
    } else {
        p.1
    }
}

/// Denominator 10^scale of the value.
pub open spec fn denominator(p: DecimalParts) -> int {
    pow(10, p.2 as nat)
}

/// The two decimals have the same value.
pub open spec fn value_eq(a: DecimalParts, b: DecimalParts) -> bool {
    numerator(a) * denominator(b) == numerator(b) * denominator(a)
}

/// The value of `a` is smaller than the value of `b`.
pub open spec fn value_lt(a: DecimalParts, b: DecimalParts) -> bool {
    numerator(a) * denominator(b) < numerator(b) * denominator(a)
}

/// Parts of zero.
pub open spec fn zero_parts() -> DecimalParts {
    (false, 0int, 0int)
}

/// The value of `p` is below zero.
pub open spec fn is_negative(p: DecimalParts) -> bool {
    p.0 && p.1 != 0
}

/// Comparing a decimal with zero depends only on its sign and magnitude.
pub proof fn lemma_compare_zero(p: DecimalParts)
    requires
        parts_wf(p),
    ensures
        value_lt(p, zero_parts()) <==> is_negative(p),
        value_eq(p, zero_parts()) <==> p.1 == 0,
{
    vstd::arithmetic::power::lemma_pow0(10);
    vstd::arithmetic::power::lemma_pow_positive(10, p.2 as nat);
    let d = denominator(p);
    assert(numerator(zero_parts()) * d == 0) by (nonlinear_arith)
        requires
            numerator(zero_parts()) == 0,
    ;
}

/// `rust_decimal::Decimal::checked_add` on decimals with these parts.
pub uninterp spec fn checked_sum(a: DecimalParts, b: DecimalParts) -> Option<DecimalParts>;

/// `rust_decimal::Decimal::checked_sub` on decimals with these parts.
pub uninterp spec fn checked_difference(a: DecimalParts, b: DecimalParts) -> Option<DecimalParts>;

/// `rust_decimal::Decimal::checked_mul` on decimals with these parts.
pub uninterp spec fn checked_product(a: DecimalParts, b: DecimalParts) -> Option<DecimalParts>;

/// `rust_decimal::Decimal::checked_div` on decimals with these parts.
pub uninterp spec fn checked_quotient(a: DecimalParts, b: DecimalParts) -> Option<DecimalParts>;

/// `rust_decimal::Decimal::round_dp` on a decimal with these parts.
pub uninterp spec fn rounded_dp(a: DecimalParts, dp: u32) -> DecimalParts;

/// Parts of the decimal `rust_decimal` parses from `s`.
pub uninterp spec fn parsed_decimal(s: Seq<char>) -> Option<DecimalParts>;

/// Text `rust_decimal` renders for the decimal with these parts.
pub uninterp spec fn rendered_decimal(a: DecimalParts) -> Seq<char>;

/// Text `rust_decimal` renders for the decimal with these parts at a
/// fixed number of fractional digits (`{:.precision}`).
pub uninterp spec fn rendered_fixed(a: DecimalParts, precision: int) -> Seq<char>;

/// The value of `p` in units of `10^-28`: an integer, since every scale
/// is at most 28.
pub open spec fn units(p: DecimalParts) -> int {
    numerator(p) * pow(10, (28 - p.2) as nat)
}

/// `2^64`.
pub open spec fn two_to_64() -> int {
    0x1_0000_0000_0000_0000
}

/// The larger scale of `a` and `b`.
pub open spec fn max_scale(a: DecimalParts, b: DecimalParts) -> int {
    if a.2 < b.2 {
        b.2
    } else {
        a.2
    }
}

/// The signed sum of the mantissas of `a` and `b`, both aligned to the
/// larger of their scales.
pub open spec fn aligned_sum(a: DecimalParts, b: DecimalParts) -> int {
    numerator(a) * pow(10, (max_scale(a, b) - a.2) as nat) + numerator(b) * pow(
        10,
        (max_scale(a, b) - b.2) as nat,
    )
}

/// The sum of `a` and `b` takes one of `rust_decimal`'s exact paths: one
/// operand is zero, or both mantissas are below `2^64`, the scales are at
/// most 19 apart and the sum of the mantissas aligned to the larger scale
/// is below `2^96` in magnitude.
pub open spec fn add_is_exact(a: DecimalParts, b: DecimalParts) -> bool {
    ||| a.1 == 0
    ||| b.1 == 0
    ||| (a.1 < two_to_64() && b.1 < two_to_64() && -19 <= a.2 - b.2 <= 19 && -magnitude_bound()
        < aligned_sum(a, b) < magnitude_bound())
}

/// `b` with its sign flipped.
pub open spec fn negated(b: DecimalParts) -> DecimalParts {
    (!b.0, b.1, b.2)
}

/// `rust_decimal` subtracts by adding the negated operand, so the
/// difference takes an exact path exactly when that sum does.
pub open spec fn sub_is_exact(a: DecimalParts, b: DecimalParts) -> bool {
    add_is_exact(a, negated(b))
}

/// A value's units are its mantissa aligned to any larger scale `s`, times
/// `10^(28 - s)`.
proof fn lemma_units_aligned(p: DecimalParts, s: int)
    requires
        0 <= p.2 <= s <= 28,
    ensures
        units(p) == numerator(p) * pow(10, (s - p.2) as nat) * pow(10, (28 - s) as nat),
{
    vstd::arithmetic::power::lemma_pow_adds(10, (s - p.2) as nat, (28 - s) as nat);
    let x = pow(10, (s - p.2) as nat);
    let y = pow(10, (28 - s) as nat);
    let n = numerator(p);
    assert(n * (x * y) == n * x * y) by (nonlinear_arith);
}

/// Two decimals with scales at most `bound_scale` (at most 19) whose
/// values, and the value of their sum, stay below `2^64` units of
/// `10^-bound_scale` add on one of `rust_decimal`'s exact paths.
pub proof fn lemma_small_sum_is_exact(p: DecimalParts, q: DecimalParts, bound_scale: int)
    requires
        0 <= p.1,
        0 <= q.1,
        0 <= p.2 <= bound_scale,
        0 <= q.2 <= bound_scale,
        bound_scale <= 19,
        -two_to_64() * pow(10, (28 - bound_scale) as nat) < units(p) < two_to_64() * pow(
            10,
            (28 - bound_scale) as nat,
        ),
        -two_to_64() * pow(10, (28 - bound_scale) as nat) < units(q) < two_to_64() * pow(
            10,
            (28 - bound_scale) as nat,
        ),
        -two_to_64() * pow(10, (28 - bound_scale) as nat) < units(p) + units(q) < two_to_64() * pow(
            10,
            (28 - bound_scale) as nat,
        ),
    ensures
        add_is_exact(p, q),
{
    if p.1 != 0 && q.1 != 0 {
        let w = pow(10, (28 - bound_scale) as nat);
        let m = two_to_64();
        vstd::arithmetic::power::lemma_pow_positive(10, (28 - bound_scale) as nat);
        // each mantissa is below 2^64
        lemma_units_aligned(p, bound_scale);
        lemma_units_aligned(q, bound_scale);
        let xp = pow(10, (bound_scale - p.2) as nat);
        let xq = pow(10, (bound_scale - q.2) as nat);
        vstd::arithmetic::power::lemma_pow_positive(10, (bound_scale - p.2) as nat);
        vstd::arithmetic::power::lemma_pow_positive(10, (bound_scale - q.2) as nat);
        let np = numerator(p);
        let nq = numerator(q);
        assert(p.1 < m) by (nonlinear_arith)
            requires
                np == p.1 || np == -p.1,
                p.1 > 0,
                xp >= 1,
                w > 0,
                -m * w < np * xp * w < m * w,
        ;
        assert(q.1 < m) by (nonlinear_arith)
            requires
                nq == q.1 || nq == -q.1,
                q.1 > 0,
                xq >= 1,
                w > 0,
                -m * w < nq * xq * w < m * w,
        ;
        // the aligned sum is below 2^64
        let s = max_scale(p, q);
        lemma_units_aligned(p, s);
        lemma_units_aligned(q, s);
        vstd::arithmetic::power::lemma_pow_adds(10, (bound_scale - s) as nat, (28 - bound_scale) as nat);
        vstd::arithmetic::power::lemma_pow_positive(10, (bound_scale - s) as nat);
        let v = pow(10, (28 - s) as nat);
        let z = pow(10, (bound_scale - s) as nat);
        let a = aligned_sum(p, q);
        let ap = np * pow(10, (s - p.2) as nat);
        let aq = nq * pow(10, (s - q.2) as nat);
        assert(a == ap + aq);
        assert(units(p) + units(q) == a * v) by (nonlinear_arith)
            requires
                units(p) == ap * v,
                units(q) == aq * v,
                a == ap + aq,
        ;
        assert(-m < a < m) by (nonlinear_arith)
            requires
                v == z * w,
                z >= 1,
                w > 0,
                -m * w < a * v < m * w,
        ;
    }
}

/// The scale of an exact sum: that of the other operand when one is zero,
/// else the larger of the two.
pub open spec fn sum_scale(a: DecimalParts, b: DecimalParts) -> int {
    if a.1 == 0 {
        b.2
    } else if b.1 == 0 {
        a.2
    } else if a.2 < b.2 {
        b.2
    } else {
        a.2
    }
}

/// The number of decimal digits of `n` (none for zero).
pub open spec fn decimal_digits(n: int) -> nat
    decreases n,
{
    if n <= 0 {
        0
    } else {
        1 + decimal_digits(n / 10)
    }
}

/// The number of digits before the point of `magnitude / 10^scale`, as
/// `rust_decimal` writes them (none when the whole part is zero).
pub open spec fn whole_digits(magnitude: int, scale: int) -> nat
    decreases scale,
{
    if scale <= 0 {
        decimal_digits(magnitude)
    } else {
        whole_digits(magnitude / 10, scale - 1)
    }
}

/// `rust_decimal` writes a decimal with a given precision into a buffer of
/// 32 characters: its whole digits, the point and at most 28 fractional
/// digits (more are appended afterwards) must fit.
pub open spec fn fixed_fits(a: DecimalParts, precision: int) -> bool {
    whole_digits(a.1, a.2) + (if precision < 28 {
        precision
    } else {
        28
    }) + 1 <= 32
}

/// `10^k`.
spec fn ten_to(k: nat) -> int
    decreases k,
{
    if k == 0 {
        1
    } else {
        10 * ten_to((k - 1) as nat)
    }
}

/// A magnitude below `10^k` has at most `k` digits.
proof fn lemma_digits_below(n: int, k: nat)
    requires
        0 <= n < ten_to(k),
    ensures
        decimal_digits(n) <= k,
    decreases k,
{
    if n > 0 && k > 0 {
        let q = ten_to((k - 1) as nat);
        assert(n / 10 < q);
        lemma_digits_below(n / 10, (k - 1) as nat);
    }
}

/// The whole part never has more digits than the magnitude.
proof fn lemma_whole_within_digits(n: int, scale: int)
    requires
        0 <= n,
    ensures
        whole_digits(n, scale) <= decimal_digits(n),
    decreases scale,
{
    if scale > 0 {
        lemma_whole_within_digits(n / 10, scale - 1);
    }
}

/// Every decimal, at precision up to two, fits `rust_decimal`'s buffer:
/// its whole part has at most 29 digits.
pub proof fn lemma_fits_at_two_places(a: DecimalParts, precision: int)
    requires
        parts_wf(a),
        0 <= precision <= 2,
    ensures
        fixed_fits(a, precision),
{
    assert(ten_to(29) == 100000000000000000000000000000int) by {
        reveal_with_fuel(ten_to, 30);
    }
    lemma_digits_below(a.1, 29);
    lemma_whole_within_digits(a.1, a.2);
}

/// An exact decimal number.
#[derive(Clone, Copy, Debug)]
pub struct Decimal {
    negative: bool,
    lo: u32,
    mid: u32,
    hi: u32,
    scale: u32,
}

impl View for Decimal {
    type V = DecimalParts;

    open spec fn view(&self) -> DecimalParts {
        (self.spec_negative(), self.spec_magnitude(), self.spec_scale())
    }
}

/// `rust_decimal::Decimal::checked_add`; the contract names the result,
/// and claims what `rust_decimal`'s addition does on its exact paths (a
/// zero operand is returned as the other one; two mantissas below `2^64`
/// whose scales are at most 19 apart are aligned to the larger scale and
/// added in 128 bits, the result kept when it is below `2^96`): there the
/// sum is exact, at the scale `sum_scale`.
#[verifier::external_body]
fn rd_checked_add(a: Decimal, b: Decimal) -> (r: Option<Decimal>)
    ensures
        r matches Some(x) ==> checked_sum(a@, b@) == Some(x@),
        r is None ==> checked_sum(a@, b@) is None,
        add_is_exact(a@, b@) ==> r is Some,
        r matches Some(x) ==> (add_is_exact(a@, b@) ==> units(x@) == units(a@) + units(b@) && x@.2 == sum_scale(a@, b@)),
{
    let x = rust_decimal::Decimal::from_parts(a.lo, a.mid, a.hi, a.negative, a.scale);
    let y = rust_decimal::Decimal::from_parts(b.lo, b.mid, b.hi, b.negative, b.scale);
    match x.checked_add(y) {
        Some(z) => {
            let u = z.unpack();
            Some(Decimal { negative: u.negative, lo: u.lo, mid: u.mid, hi: u.hi, scale: u.scale })
        },
        None => None,
    }
}

/// `rust_decimal::Decimal::checked_sub`; the contract names the result,
/// and claims what `rust_decimal`'s subtraction (the addition of the
/// negated operand, on the same paths as `checked_add`) does on its exact
/// paths: there the difference is exact, at the scale `sum_scale`.
#[verifier::external_body]
fn rd_checked_sub(a: Decimal, b: Decimal) -> (r: Option<Decimal>)
    ensures
        r matches Some(x) ==> checked_difference(a@, b@) == Some(x@),
        r is None ==> checked_difference(a@, b@) is None,
        sub_is_exact(a@, b@) ==> r is Some,
        r matches Some(x) ==> (sub_is_exact(a@, b@) ==> units(x@) == units(a@) - units(b@) && x@.2 == sum_scale(a@, b@)),
{
    let x = rust_decimal::Decimal::from_parts(a.lo, a.mid, a.hi, a.negative, a.scale);
    let y = rust_decimal::Decimal::from_parts(b.lo, b.mid, b.hi, b.negative, b.scale);
    match x.checked_sub(y) {
        Some(z) => {
            let u = z.unpack();
            Some(Decimal { negative: u.negative, lo: u.lo, mid: u.mid, hi: u.hi, scale: u.scale })
        },
        None => None,
    }
}

/// `rust_decimal::Decimal::checked_mul`; the contract names the result.
#[verifier::external_body]
fn rd_checked_mul(a: Decimal, b: Decimal) -> (r: Option<Decimal>)
    ensures
        r matches Some(x) ==> checked_product(a@, b@) == Some(x@),
        r is None ==> checked_product(a@, b@) is None,
{
    let x = rust_decimal::Decimal::from_parts(a.lo, a.mid, a.hi, a.negative, a.scale);
    let y = rust_decimal::Decimal::from_parts(b.lo, b.mid, b.hi, b.negative, b.scale);
    match x.checked_mul(y) {
        Some(z) => {
            let u = z.unpack();
            Some(Decimal { negative: u.negative, lo: u.lo, mid: u.mid, hi: u.hi, scale: u.scale })
        },
        None => None,
    }
}

/// `rust_decimal::Decimal::checked_div`; the contract names the result
/// and claims, as its documentation says, that dividing by zero fails.
#[verifier::external_body]
fn rd_checked_div(a: Decimal, b: Decimal) -> (r: Option<Decimal>)
    ensures
        r matches Some(x) ==> checked_quotient(a@, b@) == Some(x@),
        r is None ==> checked_quotient(a@, b@) is None,
        b@.1 == 0 ==> r is None,
{
    let x = rust_decimal::Decimal::from_parts(a.lo, a.mid, a.hi, a.negative, a.scale);
    let y = rust_decimal::Decimal::from_parts(b.lo, b.mid, b.hi, b.negative, b.scale);
    match x.checked_div(y) {
        Some(z) => {
            let u = z.unpack();
            Some(Decimal { negative: u.negative, lo: u.lo, mid: u.mid, hi: u.hi, scale: u.scale })
        },
        None => None,
    }
}

/// `rust_decimal::Decimal::round_dp`; the contract names the result.
#[verifier::external_body]
fn rd_round_dp(a: Decimal, dp: u32) -> (r: Decimal)
    ensures
        r@ == rounded_dp(a@, dp),
{
    let z = rust_decimal::Decimal::from_parts(a.lo, a.mid, a.hi, a.negative, a.scale).round_dp(dp);
    let u = z.unpack();
    Decimal { negative: u.negative, lo: u.lo, mid: u.mid, hi: u.hi, scale: u.scale }
}

/// `==` of `rust_decimal::Decimal`, which compares values.
#[verifier::external_body]
fn rd_eq(a: Decimal, b: Decimal) -> (r: bool)
    ensures
        r == value_eq(a@, b@),
{
    rust_decimal::Decimal::from_parts(a.lo, a.mid, a.hi, a.negative, a.scale) == rust_decimal::Decimal::from_parts(b.lo, b.mid, b.hi, b.negative, b.scale)
}

/// `<` of `rust_decimal::Decimal`, which compares values.
#[verifier::external_body]
fn rd_lt(a: Decimal, b: Decimal) -> (r: bool)
    ensures
        r == value_lt(a@, b@),
{
    rust_decimal::Decimal::from_parts(a.lo, a.mid, a.hi, a.negative, a.scale) < rust_decimal::Decimal::from_parts(b.lo, b.mid, b.hi, b.negative, b.scale)
}

/// `FromStr` of `rust_decimal::Decimal`; the contract names the result.
#[verifier::external_body]
fn rd_parse(s: &str) -> (r: core::result::Result<Decimal, String>)
    ensures
        r matches Ok(x) ==> parsed_decimal(s@) == Some(x@),
        r is Err ==> parsed_decimal(s@) is None,
{
    match s.parse::<rust_decimal::Decimal>() {
        Ok(z) => {
            let u = z.unpack();
            Ok(Decimal { negative: u.negative, lo: u.lo, mid: u.mid, hi: u.hi, scale: u.scale })
        },
        Err(e) => Err(e.to_string()),
    }
}

/// `Display` of `rust_decimal::Decimal`; the contract names the text.
#[verifier::external_body]
fn rd_render(a: Decimal) -> (r: String)
    ensures
        r@ == rendered_decimal(a@),
{
    rust_decimal::Decimal::from_parts(a.lo, a.mid, a.hi, a.negative, a.scale).to_string()
}

/// The magnitude held by the three words `lo`, `mid`, `hi`.
pub open spec fn words_value(lo: u32, mid: u32, hi: u32) -> int {
    hi * 0x1_0000_0000_0000_0000 + mid * 0x1_0000_0000 + lo
}

/// `Display` of `rust_decimal::Decimal` with a precision; the contract
/// names the text. `rust_decimal` builds it in a buffer of 32 characters
/// and panics when the whole digits, the point and the (at most 28)
/// fractional digits overflow it, so `requires` keeps them within it.
#[verifier::external_body]
fn rd_render_fixed(a: Decimal, precision: usize) -> (r: String)
    requires
        fixed_fits(a@, precision as int),
    ensures
        r@ == rendered_fixed(a@, precision as int),
{
    format!("{:.*}", precision, rust_decimal::Decimal::from_parts(a.lo, a.mid, a.hi, a.negative, a.scale))
}

impl Decimal {
    /// Whether the sign is negative.
    pub closed spec fn spec_negative(self) -> bool {
        self.negative
    }

    /// The magnitude (an integer below 2^96).
    pub closed spec fn spec_magnitude(self) -> int {
        words_value(self.lo, self.mid, self.hi)
    }

    /// The number of fractional digits (at most 28).
    pub closed spec fn spec_scale(self) -> int {
        self.scale as int
    }

    /// A decimal is one that `rust_decimal` can represent.
    #[verifier::type_invariant]
    pub open spec fn wf(self) -> bool {
        parts_wf(self@)
    }

    /// The decimal `±(hi·2^64 + mid·2^32 + lo) / 10^scale`, from its parts
    /// as `rust_decimal::Decimal::from_parts` takes them. A zero magnitude
    /// is given the positive sign.
    pub fn from_parts(lo: u32, mid: u32, hi: u32, negative: bool, scale: u32) -> (r: Decimal)
        requires
            scale <= 28,
        ensures
            r@ == (negative && words_value(lo, mid, hi) != 0, words_value(lo, mid, hi), scale as int),
    {
        let negative = negative && !(lo == 0 && mid == 0 && hi == 0);
        Decimal { negative, lo, mid, hi, scale }
    }

    /// Whether the sign is negative (a zero may carry either sign).
    pub fn is_sign_negative(&self) -> (r: bool)
        ensures
            r == self@.0,
    {
        self.negative
    }

    /// The magnitude.
    pub fn magnitude(&self) -> (r: u128)
        ensures
            r == self@.1,
            r < magnitude_bound(),
    {
        let r: u128 = self.hi as u128 * 0x1_0000_0000_0000_0000 + self.mid as u128 * 0x1_0000_0000
            + self.lo as u128;
        r
    }

    /// The scale (number of fractional digits).
    pub fn scale(&self) -> (r: u32)
        ensures
            r == self@.2,
            r <= 28,
    {
        proof {
            use_type_invariant(self);
        }
        self.scale
    }

    /// Zero.
    pub fn zero() -> (r: Decimal)
        ensures
            r@ == (false, 0int, 0int),
    {
        Decimal { negative: false, lo: 0, mid: 0, hi: 0, scale: 0 }
    }

    /// One.
    pub fn one() -> (r: Decimal)
        ensures
            r@ == (false, 1int, 0int),
    {
        Decimal { negative: false, lo: 1, mid: 0, hi: 0, scale: 0 }
    }

    /// The integer `n` as a decimal.
    pub fn from_i64(n: i64) -> (r: Decimal)
        ensures
            r@ == (n < 0, if n < 0 { -n } else { n as int }, 0int),
            numerator(r@) == n,
            denominator(r@) == 1,
    {
        let m: u64 = if n < 0 {
            (-(n as i128)) as u64
        } else {
            n as u64
        };
        let lo = (m % 0x1_0000_0000) as u32;
        let mid = (m / 0x1_0000_0000) as u32;
        proof {
            vstd::arithmetic::power::lemma_pow0(10);
        }
        Decimal { negative: n < 0, lo, mid, hi: 0, scale: 0 }
    }

    /// The integer `n` as a decimal.
    pub fn from_u32(n: u32) -> (r: Decimal)
        ensures
            r@ == (false, n as int, 0int),
            numerator(r@) == n,
            denominator(r@) == 1,
    {
        proof {
            vstd::arithmetic::power::lemma_pow0(10);
        }
        Decimal { negative: false, lo: n, mid: 0, hi: 0, scale: 0 }
    }

    /// True if the value is zero.
    pub fn is_zero(&self) -> (r: bool)
        ensures
            r == (self@.1 == 0),
    {
        self.lo == 0 && self.mid == 0 && self.hi == 0
    }

    /// The value with the opposite sign.
    pub fn neg(self) -> (r: Decimal)
        ensures
            r@ == (!self@.0, self@.1, self@.2),
    {
        proof {
            use_type_invariant(&self);
        }
        Decimal { negative: !self.negative, lo: self.lo, mid: self.mid, hi: self.hi, scale: self.scale }
    }

    /// The absolute value.
    pub fn abs(self) -> (r: Decimal)
        ensures
            r@ == (false, self@.1, self@.2),
    {
        proof {
            use_type_invariant(&self);
        }
        Decimal { negative: false, lo: self.lo, mid: self.mid, hi: self.hi, scale: self.scale }
    }

    /// `self + other`, `None` on overflow.
    pub fn checked_add(self, other: Decimal) -> (r: Option<Decimal>)
        ensures
            r matches Some(x) ==> checked_sum(self@, other@) == Some(x@),
            r is None ==> checked_sum(self@, other@) is None,
            add_is_exact(self@, other@) ==> (r matches Some(x) && units(x@) == units(self@) + units(other@) && x@.2 == sum_scale(self@, other@)),
    {
        rd_checked_add(self, other)
    }

    /// `self - other`, `None` on overflow.
    pub fn checked_sub(self, other: Decimal) -> (r: Option<Decimal>)
        ensures
            r matches Some(x) ==> checked_difference(self@, other@) == Some(x@),
            r is None ==> checked_difference(self@, other@) is None,
            sub_is_exact(self@, other@) ==> (r matches Some(x) && units(x@) == units(self@) - units(other@) && x@.2 == sum_scale(self@, other@)),
    {
        rd_checked_sub(self, other)
    }

    /// `self * other`, `None` on overflow.
    pub fn checked_mul(self, other: Decimal) -> (r: Option<Decimal>)
        ensures
            r matches Some(x) ==> checked_product(self@, other@) == Some(x@),
            r is None ==> checked_product(self@, other@) is None,
    {
        rd_checked_mul(self, other)
    }

    /// `self / other`, `None` on overflow or division by zero.
    pub fn checked_div(self, other: Decimal) -> (r: Option<Decimal>)
        ensures
            r matches Some(x) ==> checked_quotient(self@, other@) == Some(x@),
            r is None ==> checked_quotient(self@, other@) is None,
            other@.1 == 0 ==> r is None,
    {
        rd_checked_div(self, other)
    }

    /// Round to `dp` decimal places.
    pub fn round_dp(&self, dp: u32) -> (r: Decimal)
        ensures
            r@ == rounded_dp(self@, dp),
    {
        rd_round_dp(*self, dp)
    }

    /// True if the value of `self` is smaller than the value of `other`.
    pub fn lt(&self, other: &Decimal) -> (r: bool)
        ensures
            r == value_lt(self@, other@),
    {
        rd_lt(*self, *other)
    }

    /// True if `self` and `other` have the same value.
    pub fn value_equals(&self, other: &Decimal) -> (r: bool)
        ensures
            r == value_eq(self@, other@),
    {
        rd_eq(*self, *other)
    }

    /// Parse decimal text such as `71.80`.
    pub fn parse(s: &str) -> (r: crate::error::Result<Decimal>)
        ensures
            r matches Ok(x) ==> parsed_decimal(s@) == Some(x@),
            r is Err ==> parsed_decimal(s@) is None,
    {
        match rd_parse(s) {
            Ok(x) => Ok(x),
            Err(msg) => Err(Error::Other(msg)),
        }
    }

    /// The decimal as text with exactly `precision` fractional digits.
    pub fn to_fixed_string(&self, precision: usize) -> (r: String)
        requires
            fixed_fits(self@, precision as int),
        ensures
            r@ == rendered_fixed(self@, precision as int),
    {
        rd_render_fixed(*self, precision)
    }

    /// The decimal as text.
    pub fn to_string(&self) -> (r: String)
        ensures
            r@ == rendered_decimal(self@),
    {
        rd_render(*self)
    }
}

impl PartialEq for Decimal {
    /// Compares values, as `rust_decimal` does: `1.0 == 1.00`.
    fn eq(&self, other: &Decimal) -> (r: bool) {
        rd_eq(*self, *other)
    }
}

impl vstd::std_specs::cmp::PartialEqSpecImpl for Decimal {
    open spec fn obeys_eq_spec() -> bool {
        true
    }

    open spec fn eq_spec(&self, other: &Decimal) -> bool {
        value_eq(self@, other@)
    }
}

impl From<u32> for Decimal {
    fn from(n: u32) -> (r: Decimal) {
        Decimal::from_u32(n)
    }
}

impl vstd::std_specs::convert::FromSpecImpl<u32> for Decimal {
    open spec fn obeys_from_spec() -> bool {
        true
    }

    closed spec fn from_spec(n: u32) -> Decimal {
        Decimal { negative: false, lo: n, mid: 0, hi: 0, scale: 0 }
    }
}

} // verus!
