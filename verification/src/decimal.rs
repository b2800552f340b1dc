//! Scaled-decimal values and their conversion to and from smallest-unit
//! integer amounts.
//!
//! A [`ScaledDecimal`] is a sign, a 96-bit mantissa and a scale `s <= 28`,
//! standing for the rational number `+/- mantissa / 10^s`.  Token amounts are
//! `u64` values counted in a token's smallest unit; a token with `k` decimals
//! displays the amount `u` as the decimal `u / 10^k`.  Converting a decimal to
//! smallest units rescales by `10^k` and rounds to the nearest integer with
//! halves rounded away from zero.

use vstd::prelude::*;
use vstd::arithmetic::div_mod::{
    lemma_fundamental_div_mod, lemma_fundamental_div_mod_converse,
};
use vstd::arithmetic::mul::{lemma_mul_inequality, lemma_mul_strict_inequality};
use std::str::FromStr;

verus! {

/// Largest scale a [`ScaledDecimal`] may carry (the same range a 96-bit
/// decimal representation supports).
pub const MAX_SCALE: u32 = 28;

/// Exclusive upper bound of a [`ScaledDecimal`] mantissa: `2^96`.
pub const MANTISSA_LIMIT: u128 = 0x1_0000_0000_0000_0000_0000_0000;

/// `10^e`.
pub open spec fn pow10(e: nat) -> nat
    decreases e,
{
    if e == 0 {
        1
    } else {
        10 * pow10((e - 1) as nat)
    }
}

pub proof fn lemma_pow10_pos(e: nat)
    ensures
        pow10(e) >= 1,
    decreases e,
{
    if e > 0 {
        lemma_pow10_pos((e - 1) as nat);
    }
}

pub proof fn lemma_pow10_adds(a: nat, b: nat)
    ensures
        pow10(a + b) == pow10(a) * pow10(b),
    decreases a,
{
    if a == 0 {
        assert(pow10(0 + b) == 1 * pow10(b));
    } else {
        lemma_pow10_adds((a - 1) as nat, b);
        assert(pow10(a + b) == 10 * pow10(((a + b) - 1) as nat));
        assert(pow10((a - 1) as nat + b) == pow10((a - 1) as nat) * pow10(b));
        assert(pow10(a + b) == 10 * (pow10((a - 1) as nat) * pow10(b)));
        assert(10 * (pow10((a - 1) as nat) * pow10(b)) == (10 * pow10((a - 1) as nat)) * pow10(b))
            by (nonlinear_arith);
    }
}

pub proof fn lemma_pow10_mono(a: nat, b: nat)
    requires
        a <= b,
    ensures
        pow10(a) <= pow10(b),
{
    lemma_pow10_adds(a, (b - a) as nat);
    lemma_pow10_pos((b - a) as nat);
    lemma_mul_inequality(1, pow10((b - a) as nat) as int, pow10(a) as int);
    assert(pow10(a) * pow10((b - a) as nat) == pow10((b - a) as nat) * pow10(a))
        by (nonlinear_arith);
}

/// The concrete value of `10^28`, the largest power the library rescales by.
pub proof fn lemma_pow10_28_value()
    ensures
        pow10(28) == 10_000_000_000_000_000_000_000_000_000,
{
    reveal_with_fuel(pow10, 29);
}

/// The concrete value of `10^19`, the largest power a token's decimal count
/// can call for; it fits in 64 bits.
pub proof fn lemma_pow10_19_value()
    ensures
        pow10(19) == 10_000_000_000_000_000_000,
{
    reveal_with_fuel(pow10, 20);
}

/// `10^e` as an executable value.
pub fn pow10_u128(e: u32) -> (r: u128)
    requires
        e <= MAX_SCALE,
    ensures
        r == pow10(e as nat),
{
    proof {
        lemma_pow10_28_value();
    }
    let mut r: u128 = 1;
    let mut i: u32 = 0;
    while i < e
        invariant
            i <= e <= 28,
            r == pow10(i as nat),
            pow10(28) == 10_000_000_000_000_000_000_000_000_000,
        decreases e - i,
    {
        proof {
            lemma_pow10_mono((i + 1) as nat, 28);
        }
        r = r * 10;
        i = i + 1;
    }
    r
}

/// A decimal number: the rational `mantissa / 10^scale`, negated when
/// `negative` is set.
#[derive(Clone, Copy, Debug, PartialEq, Eq, Structural)]
pub struct ScaledDecimal {
    pub negative: bool,
    pub mantissa: u128,
    pub scale: u32,
}

impl ScaledDecimal {
    /// Well-formed: the mantissa fits in 96 bits and the scale is supported.
    pub open spec fn wf(self) -> bool {
        self.mantissa < MANTISSA_LIMIT && self.scale <= MAX_SCALE
    }

}

/// Why a decimal could not be converted to a smallest-unit amount.
#[derive(Clone, Copy, Debug, PartialEq, Eq, Structural)]
pub enum ConvError {
    /// Rescaling the decimal cannot be represented (the rescaled mantissa
    /// needs more than 96 bits).
    DecimalOverflow,
    /// The rounded value is negative or exceeds `u64::MAX`.
    IntegerOverflow,
}

impl ConvError {
    /// A short description of the failure.
    pub fn message(&self) -> (s: String)
        ensures
            *self is DecimalOverflow ==> s@ == "decimal overflow"@,
            *self is IntegerOverflow ==> s@ == "u64 overflow"@,
    {
        match self {
            ConvError::DecimalOverflow => "decimal overflow".to_owned(),
            ConvError::IntegerOverflow => "u64 overflow".to_owned(),
        }
    }
}

/// `a / d` rounded to the nearest integer with halves rounded up, for
/// `a >= 0` and `d > 0`.  On nonnegative numerators, rounding halves up is
/// the same as rounding them away from zero.
pub open spec fn round_div_half_up(a: int, d: int) -> int {
    (2 * a + d) / (2 * d)
}

/// What converting the decimal `d` to smallest units of a token with
/// `decimals` decimals returns: the value `d * 10^decimals` rounded to the
/// nearest integer (halves away from zero), or `DecimalOverflow` when the
/// rescaled mantissa no longer fits in 96 bits, or `IntegerOverflow` when
/// the rounded value is negative or exceeds `u64::MAX`.
pub open spec fn spec_to_smallest_units(d: ScaledDecimal, decimals: u32) -> Result<u64, ConvError> {
    let num = d.mantissa * pow10(decimals as nat);
    let den = pow10(d.scale as nat) as int;
    if num >= MANTISSA_LIMIT * pow10(d.scale as nat) {
        Err(ConvError::DecimalOverflow)
    } else {
        let rounded = round_div_half_up(num as int, den);
        if (d.negative && rounded > 0) || rounded > u64::MAX {
            Err(ConvError::IntegerOverflow)
        } else {
            Ok(rounded as u64)
        }
    }
}

/// Cancel a common positive factor: `(x * c) / (d * c) == x / d`.
proof fn lemma_div_cancel_factor(x: int, d: int, c: int)
    requires
        x >= 0,
        d > 0,
        c > 0,
    ensures
        (x * c) / (d * c) == x / d,
{
    let q = x / d;
    let r = x % d;
    lemma_fundamental_div_mod(x, d);
    assert(x == d * q + r);
    assert(x * c == (d * q + r) * c);
    assert((d * q + r) * c == q * (d * c) + r * c) by (nonlinear_arith);
    assert(r * c < d * c) by {
        lemma_mul_strict_inequality(r, d, c);
    }
    assert(0 <= r * c) by (nonlinear_arith)
        requires r >= 0 && c > 0;
    lemma_fundamental_div_mod_converse(x * c, d * c, q, r * c);
}

/// Convert a well-formed decimal to a smallest-unit `u64` amount of a token
/// with `decimals` decimals, rounding to the nearest integer with halves
/// away from zero.
pub fn to_smallest_units(d: &ScaledDecimal, decimals: u32) -> (r: Result<u64, ConvError>)
    requires
        d.wf(),
        decimals <= MAX_SCALE,
    ensures
        r == spec_to_smallest_units(*d, decimals),
{
    let ghost num = d.mantissa * pow10(decimals as nat);
    let ghost den = pow10(d.scale as nat) as int;
    if d.scale <= decimals {
        let e: u32 = decimals - d.scale;
        let p: u128 = pow10_u128(e);
        proof {
            lemma_pow10_adds(e as nat, d.scale as nat);
            lemma_pow10_pos(e as nat);
            lemma_pow10_pos(d.scale as nat);
            assert(num == (d.mantissa * p) * den) by (nonlinear_arith)
                requires
                    num == d.mantissa * (p * pow10(d.scale as nat)),
                    den == pow10(d.scale as nat);
        }
        let overflowing: bool = if d.mantissa == 0 {
            false
        } else {
            p > (MANTISSA_LIMIT - 1) / d.mantissa
        };
        proof {
            let m = d.mantissa as int;
            let limit = MANTISSA_LIMIT as int;
            if m > 0 {
                let t = (limit - 1) / m;
                lemma_fundamental_div_mod(limit - 1, m);
                if p <= t {
                    // m * p <= m * t <= limit - 1
                    lemma_mul_inequality(p as int, t, m);
                    assert(m * t <= limit - 1) by (nonlinear_arith)
                        requires limit - 1 == m * t + (limit - 1) % m && (limit - 1) % m >= 0;
                    assert(p as int * m == m * p) by (nonlinear_arith);
                } else {
                    // m * p >= m * (t + 1) > limit - 1
                    lemma_mul_inequality(t + 1, p as int, m);
                    assert(m * (t + 1) > limit - 1) by (nonlinear_arith)
                        requires limit - 1 == m * t + (limit - 1) % m && (limit - 1) % m < m;
                    assert((t + 1) * m == m * (t + 1)) by (nonlinear_arith);
                    assert((p as int) * m == m * p) by (nonlinear_arith);
                }
            }
            // relate m * p with the spec-level overflow test
            if m * p >= limit {
                lemma_mul_inequality(limit, m * p, den);
                assert((m * p) * den == num) by (nonlinear_arith)
                    requires num == (m * p) * den;
                assert(limit * den <= num);
            } else {
                lemma_mul_strict_inequality(m * p, limit, den);
                assert(num < limit * den);
            }
        }
        if overflowing {
            Err(ConvError::DecimalOverflow)
        } else {
            let n: u128 = d.mantissa * p;
            proof {
                // rounding an integer returns it unchanged:
                // (2 * n * den + den) / (2 * den) == n
                let n_i = n as int;
                assert(2 * (n_i * den) + den == (2 * n_i + 1) * den) by (nonlinear_arith);
                lemma_div_cancel_factor(2 * n_i + 1, 2, den);
                assert((2 * n_i + 1) * den / (2 * den) == (2 * n_i + 1) / 2);
                lemma_fundamental_div_mod_converse(2 * n_i + 1, 2, n_i, 1);
                assert(round_div_half_up(num as int, den) == n_i);
            }
            if d.negative && n > 0 {
                Err(ConvError::IntegerOverflow)
            } else if n > u64::MAX as u128 {
                Err(ConvError::IntegerOverflow)
            } else {
                Ok(n as u64)
            }
        }
    } else {
        let e: u32 = d.scale - decimals;
        let p: u128 = pow10_u128(e);
        proof {
            lemma_pow10_adds(e as nat, decimals as nat);
            lemma_pow10_pos(e as nat);
            lemma_pow10_pos(decimals as nat);
            lemma_pow10_mono(e as nat, MAX_SCALE as nat);
            lemma_pow10_28_value();
            // no decimal overflow in this branch:
            // num == m * 10^k < limit * 10^k <= limit * 10^s
            let m = d.mantissa as int;
            let limit = MANTISSA_LIMIT as int;
            let pk = pow10(decimals as nat) as int;
            lemma_mul_strict_inequality(m, limit, pk);
            lemma_pow10_mono(decimals as nat, d.scale as nat);
            lemma_mul_inequality(pk, den, limit);
            assert(limit * pk == pk * limit) by (nonlinear_arith);
            assert(limit * den == den * limit) by (nonlinear_arith);
        }
        let q: u128 = d.mantissa / p;
        let rem: u128 = d.mantissa % p;
        let round_up: bool = 2 * rem >= p;
        let rounded: u128 = if round_up {
            q + 1
        } else {
            q
        };
        proof {
            let m = d.mantissa as int;
            let p_i = p as int;
            let pk = pow10(decimals as nat) as int;
            // num / den reduces to m / p by cancelling 10^decimals:
            // round_div_half_up(m * pk, p * pk) == (2m + p) / (2p)
            assert(2 * (m * pk) + p_i * pk == (2 * m + p_i) * pk) by (nonlinear_arith);
            assert(2 * (p_i * pk) == (2 * p_i) * pk) by (nonlinear_arith);
            lemma_div_cancel_factor(2 * m + p_i, 2 * p_i, pk);
            assert(den == p_i * pk);
            assert(round_div_half_up(num as int, den) == (2 * m + p_i) / (2 * p_i));
            // (2m + p) / (2p) is q, or q + 1 when 2 * rem >= p
            lemma_fundamental_div_mod(m, p_i);
            assert(m == p_i * (q as int) + rem);
            if round_up {
                assert(2 * m + p_i == (q as int + 1) * (2 * p_i) + (2 * rem - p_i))
                    by (nonlinear_arith)
                    requires m == p_i * (q as int) + rem;
                lemma_fundamental_div_mod_converse(
                    2 * m + p_i, 2 * p_i, q as int + 1, 2 * rem - p_i);
            } else {
                assert(2 * m + p_i == (q as int) * (2 * p_i) + (2 * rem + p_i))
                    by (nonlinear_arith)
                    requires m == p_i * (q as int) + rem;
                lemma_fundamental_div_mod_converse(
                    2 * m + p_i, 2 * p_i, q as int, 2 * rem + p_i);
            }
        }
        if d.negative && rounded > 0 {
            Err(ConvError::IntegerOverflow)
        } else if rounded > u64::MAX as u128 {
            Err(ConvError::IntegerOverflow)
        } else {
            Ok(rounded as u64)
        }
    }
}

/// The smallest-unit amount `value` of a token with `decimals` decimals, as
/// the exact decimal `value / 10^decimals`.
pub fn from_smallest_units(value: u64, decimals: u32) -> (r: ScaledDecimal)
    requires
        decimals <= MAX_SCALE,
    ensures
        r == (ScaledDecimal { negative: false, mantissa: value as u128, scale: decimals }),
        r.wf(),
{
    ScaledDecimal { negative: false, mantissa: value as u128, scale: decimals }
}

/// Round trip: converting `value / 10^decimals` back to smallest units of
/// the same token returns `value` exactly.
pub proof fn lemma_round_trip(value: u64, decimals: u32)
    requires
        decimals <= MAX_SCALE,
    ensures
        spec_to_smallest_units(
            ScaledDecimal { negative: false, mantissa: value as u128, scale: decimals },
            decimals,
        ) == Ok::<u64, ConvError>(value),
{
    let d = ScaledDecimal { negative: false, mantissa: value as u128, scale: decimals };
    let den = pow10(decimals as nat) as int;
    let v = value as int;
    lemma_pow10_pos(decimals as nat);
    // no overflow: value * 10^k < limit * 10^k
    lemma_mul_strict_inequality(v, MANTISSA_LIMIT as int, den);
    assert(v * den == den * v) by (nonlinear_arith);
    assert(MANTISSA_LIMIT as int * den == den * (MANTISSA_LIMIT as int)) by (nonlinear_arith);
    // rounding returns the integer unchanged
    assert(2 * (v * den) + den == (2 * v + 1) * den) by (nonlinear_arith);
    lemma_div_cancel_factor(2 * v + 1, 2, den);
    lemma_fundamental_div_mod_converse(2 * v + 1, 2, v, 1);
    assert(round_div_half_up((d.mantissa * pow10(decimals as nat)) as int, den) == v);
}

/// A successful conversion is within half of one smallest unit of the exact
/// rescaled value: `|r - d * 10^decimals| <= 1/2`, stated over integers as
/// `-den < 2 * (r * den - num) <= den`.
pub proof fn lemma_to_smallest_units_close(d: ScaledDecimal, decimals: u32)
    requires
        d.wf(),
        decimals <= MAX_SCALE,
        !d.negative,
        spec_to_smallest_units(d, decimals) is Ok,
    ensures
        ({
            let r = spec_to_smallest_units(d, decimals)->Ok_0 as int;
            let num = (d.mantissa * pow10(decimals as nat)) as int;
            let den = pow10(d.scale as nat) as int;
            -den < 2 * (r * den - num) <= den
        }),
{
    let r = spec_to_smallest_units(d, decimals)->Ok_0 as int;
    let num = (d.mantissa * pow10(decimals as nat)) as int;
    let den = pow10(d.scale as nat) as int;
    lemma_pow10_pos(d.scale as nat);
    lemma_pow10_pos(decimals as nat);
    assert(num >= 0) by (nonlinear_arith)
        requires num == d.mantissa * pow10(decimals as nat) && pow10(decimals as nat) >= 1;
    assert(r == round_div_half_up(num, den));
    let q = (2 * num + den) / (2 * den);
    let rr = (2 * num + den) % (2 * den);
    lemma_fundamental_div_mod(2 * num + den, 2 * den);
    assert(2 * num + den == (2 * den) * q + rr);
    assert(0 <= rr < 2 * den) by {
        vstd::arithmetic::div_mod::lemma_mod_bound(2 * num + den, 2 * den);
    }
    assert(2 * (q * den - num) == den - rr) by (nonlinear_arith)
        requires 2 * num + den == (2 * den) * q + rr;
}

/// The exact product of two decimals, when it is representable: the
/// mantissas multiply and the scales add.  The product of two well-formed
/// decimals is `None` when its mantissa needs more than 96 bits or its
/// scale exceeds [`MAX_SCALE`].
pub open spec fn spec_checked_mul(a: ScaledDecimal, b: ScaledDecimal) -> Option<ScaledDecimal> {
    let m = a.mantissa * b.mantissa;
    let s = a.scale + b.scale;
    if m >= MANTISSA_LIMIT || s > MAX_SCALE {
        None
    } else {
        Some(
            ScaledDecimal {
                negative: (a.negative != b.negative) && m != 0,
                mantissa: m as u128,
                scale: s as u32,
            },
        )
    }
}

/// Multiply two decimals exactly, or return `None` when the product is not
/// representable.
pub fn checked_mul(a: &ScaledDecimal, b: &ScaledDecimal) -> (r: Option<ScaledDecimal>)
    requires
        a.wf(),
        b.wf(),
    ensures
        r == spec_checked_mul(*a, *b),
        r matches Some(d) ==> d.wf(),
{
    let scale_sum: u32 = a.scale + b.scale;
    match a.mantissa.checked_mul(b.mantissa) {
        Some(m) => {
            if m >= MANTISSA_LIMIT || scale_sum > MAX_SCALE {
                None
            } else {
                Some(
                    ScaledDecimal {
                        negative: (a.negative != b.negative) && m != 0,
                        mantissa: m,
                        scale: scale_sum,
                    },
                )
            }
        }
        None => {
            proof {
                assert(a.mantissa * b.mantissa >= MANTISSA_LIMIT);
            }
            None
        }
    }
}

/// The result of parsing a decimal string: the signed 96-bit numerator and
/// the scale of the parsed value, or `None` when the text does not parse.
pub uninterp spec fn parsed_decimal(s: Seq<char>) -> Option<(i128, u32)>;

/// The decimal a string parses to, if any.
pub open spec fn spec_parsed(s: Seq<char>) -> Option<ScaledDecimal> {
    match parsed_decimal(s) {
        Some(t) => Some(decimal_from_parts(t.0 as int, t.1)),
        None => None,
    }
}

/// The decimal with signed numerator `numer` and scale `scale`.
pub open spec fn decimal_from_parts(numer: int, scale: u32) -> ScaledDecimal {
    if numer < 0 {
        ScaledDecimal { negative: true, mantissa: (-numer) as u128, scale }
    } else {
        ScaledDecimal { negative: false, mantissa: numer as u128, scale }
    }
}

/// Relies on `rust_decimal::Decimal::from_str` (and `Decimal::mantissa` /
/// `Decimal::scale`): the parse depends on the characters alone; a parsed
/// value has a 96-bit mantissa and a scale of at most 28.
#[verifier::external_body]
fn parse_decimal_raw(s: &str) -> (r: Result<(i128, u32), String>)
    ensures
        r matches Ok(t) ==> parsed_decimal(s@) == Some(t)
            && -0x1_0000_0000_0000_0000_0000_0000 < t.0
            < 0x1_0000_0000_0000_0000_0000_0000 && t.1 <= 28,
        r is Err <==> parsed_decimal(s@) is None,
{
    match rust_decimal::Decimal::from_str(s) {
        Ok(d) => Ok((d.mantissa(), d.scale())),
        Err(e) => Err(e.to_string()),
    }
}

/// Parse a decimal string into a [`ScaledDecimal`], or return the parser's
/// error message.
pub fn parse_decimal(s: &str) -> (r: Result<ScaledDecimal, String>)
    ensures
        r matches Ok(d) ==> d.wf() && (parsed_decimal(s@) matches Some(t)
            && d == decimal_from_parts(t.0 as int, t.1)),
        r is Err <==> parsed_decimal(s@) is None,
{
    match parse_decimal_raw(s) {
        Ok((mantissa, scale)) => {
            if mantissa < 0 {
                Ok(ScaledDecimal { negative: true, mantissa: (-mantissa) as u128, scale })
            } else {
                Ok(ScaledDecimal { negative: false, mantissa: mantissa as u128, scale })
            }
        }
        Err(msg) => Err(msg),
    }
}

} // verus!
