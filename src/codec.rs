use vstd::arithmetic::div_mod::{lemma_div_is_ordered, lemma_fundamental_div_mod_converse};
use vstd::arithmetic::power2::{lemma2_to64, lemma_pow2_adds, lemma_pow2_pos, lemma_pow2_strictly_increases, pow2};
use vstd::prelude::*;

use crate::error::OracleError;

verus! {

/// Fixed-point units in one US dollar: prices carry nine implied decimals.
pub const NANOS_PER_USD: u64 = 1_000_000_000;

/// The largest dollar amount accepted, kept below what nine decimals fit in a `u64`.
pub const MAX_PRICE_USD: u64 = 18_446_744_073;

/// A dollar amount as the price feed reports it: a binary floating value, held
/// exactly as `mantissa * 2^exponent`, negated when `negative` is set.
#[derive(Debug, Clone, Copy, PartialEq, Eq, Structural)]
pub struct UsdAmount {
    pub negative: bool,
    pub mantissa: u64,
    pub exponent: i32,
}

/// The binary64 fields of `bits`: sign, biased exponent, and stored fraction.
pub open spec fn binary64_sign(bits: u64) -> bool {
    bits / 0x8000_0000_0000_0000 == 1
}

pub open spec fn binary64_biased_exponent(bits: u64) -> int {
    (bits / 0x10_0000_0000_0000) as int % 2048
}

pub open spec fn binary64_fraction(bits: u64) -> int {
    bits as int % 0x10_0000_0000_0000
}

/// The amount an IEEE 754 binary64 value denotes; none for infinities and NaNs.
pub open spec fn binary64_amount(bits: u64) -> Option<UsdAmount> {
    let e = binary64_biased_exponent(bits);
    let f = binary64_fraction(bits);
    if e == 2047 {
        None
    } else if e == 0 {
        Some(UsdAmount { negative: binary64_sign(bits), mantissa: f as u64, exponent: -1074i32 })
    } else {
        Some(
            UsdAmount {
                negative: binary64_sign(bits),
                mantissa: (f + 0x10_0000_0000_0000) as u64,
                exponent: (e - 1075) as i32,
            },
        )
    }
}

impl UsdAmount {
    /// The amount that the binary64 value with these bits denotes (as
    /// `f64::to_bits` gives them); none for infinities and NaNs.
    pub fn from_f64_bits(bits: u64) -> (r: Option<UsdAmount>)
        ensures
            r == binary64_amount(bits),
    {
        let negative = bits / 0x8000_0000_0000_0000 == 1;
        let e = (bits / 0x10_0000_0000_0000) % 2048;
        let f = bits % 0x10_0000_0000_0000;
        if e == 2047 {
            None
        } else if e == 0 {
            Some(UsdAmount { negative, mantissa: f, exponent: -1074 })
        } else {
            Some(UsdAmount { negative, mantissa: f + 0x10_0000_0000_0000, exponent: e as i32 - 1075 })
        }
    }
}

/// The amount's magnitude is `amount_numerator(a) / amount_denominator(a)`.
pub open spec fn amount_numerator(a: UsdAmount) -> nat {
    if a.exponent >= 0 {
        (a.mantissa * pow2(a.exponent as nat)) as nat
    } else {
        a.mantissa as nat
    }
}

pub open spec fn amount_denominator(a: UsdAmount) -> nat {
    if a.exponent >= 0 {
        1
    } else {
        pow2((-a.exponent) as nat)
    }
}

/// `n / d` rounded to the nearest integer, halves rounded up.
pub open spec fn round_half_up(n: nat, d: nat) -> nat
    recommends
        d > 0,
{
    ((2 * n + d) / (2 * d)) as nat
}

/// The fixed-point price of an amount: `OutOfRange` below zero, `Overflow` above
/// `MAX_PRICE_USD`, else the amount in units of 10^-9 dollars, rounded half up.
pub open spec fn fixed_price_of(a: UsdAmount) -> Result<u64, OracleError> {
    let n = amount_numerator(a);
    let d = amount_denominator(a);
    if a.negative && a.mantissa > 0 {
        Err(OracleError::OutOfRange)
    } else if n > MAX_PRICE_USD * d {
        Err(OracleError::Overflow)
    } else {
        Ok(round_half_up((n * NANOS_PER_USD) as nat, d) as u64)
    }
}

fn pow2_u128(k: u32) -> (r: u128)
    requires
        k < 128,
    ensures
        r == pow2(k as nat),
{
    proof {
        lemma2_to64();
        lemma_pow2_adds(64, 64);
    }
    let mut p: u128 = 1;
    let mut i: u32 = 0;
    while i < k
        invariant
            i <= k < 128,
            p == pow2(i as nat),
            pow2(128) == 0x100000000000000000000000000000000,
        decreases k - i,
    {
        proof {
            lemma_pow2_strictly_increases((i + 1) as nat, 128);
            vstd::arithmetic::power2::lemma_pow2_unfold((i + 1) as nat);
        }
        p = p * 2;
        i = i + 1;
    }
    p
}

proof fn lemma_round_down_to_zero(x: nat, d: nat)
    requires
        2 * x < d,
    ensures
        round_half_up(x, d) == 0,
{
    lemma_fundamental_div_mod_converse(2 * x + d as int, 2 * (d as int), 0, 2 * x + d as int);
}

proof fn lemma_round_bounded(x: nat, d: nat, m: nat)
    requires
        d > 0,
        x <= m * d,
    ensures
        round_half_up(x, d) <= m,
{
    assert(2 * x + d <= 2 * m * d + d) by (nonlinear_arith)
        requires
            x <= m * d,
    ;
    let (xi, di, mi) = (x as int, d as int, m as int);
    lemma_div_is_ordered(2 * xi + di, 2 * mi * di + di, 2 * di);
    assert(2 * mi * di + di == mi * (2 * di) + di) by (nonlinear_arith);
    lemma_fundamental_div_mod_converse(2 * mi * di + di, 2 * di, mi, di);
}

/// Converts a dollar amount to a fixed-point price with nine implied decimals.
pub fn price_to_fixed(a: UsdAmount) -> (r: Result<u64, OracleError>)
    ensures
        r == fixed_price_of(a),
{
    proof {
        lemma2_to64();
    }
    if a.negative && a.mantissa > 0 {
        return Err(OracleError::OutOfRange);
    }
    if a.mantissa == 0 {
        proof {
            if a.exponent < 0 {
                lemma_pow2_pos((-a.exponent) as nat);
            }
            lemma_round_down_to_zero(0, amount_denominator(a));
        }
        return Ok(0);
    }
    if a.exponent >= 0 {
        let e = a.exponent as u32;
        if e >= 35 {
            proof {
                lemma_pow2_adds(32, 3);
                if e > 35 {
                    lemma_pow2_strictly_increases(35, e as nat);
                }
                assert(a.mantissa * pow2(e as nat) >= pow2(e as nat)) by (nonlinear_arith)
                    requires
                        a.mantissa >= 1,
                ;
            }
            return Err(OracleError::Overflow);
        }
        let p = pow2_u128(e);
        proof {
            lemma_pow2_adds(32, 3);
            if e < 35 {
                lemma_pow2_strictly_increases(e as nat, 35);
            }
            assert(a.mantissa * p <= 0xffff_ffff_ffff_ffff * 0x8_0000_0000) by (nonlinear_arith)
                requires
                    a.mantissa <= 0xffff_ffff_ffff_ffff,
                    p <= 0x8_0000_0000,
            ;
        }
        let n: u128 = a.mantissa as u128 * p;
        if n > MAX_PRICE_USD as u128 {
            return Err(OracleError::Overflow);
        }
        let r: u64 = (n as u64) * NANOS_PER_USD;
        proof {
            let x = n * NANOS_PER_USD;
            lemma_fundamental_div_mod_converse(2 * x + 1, 2, x as int, 1);
        }
        Ok(r)
    } else {
        let k: u32 = (-(a.exponent as i64)) as u32;
        let m = a.mantissa;
        if k < 30 {
            let d = pow2_u128(k);
            if m as u128 > MAX_PRICE_USD as u128 * d {
                return Err(OracleError::Overflow);
            }
        } else {
            proof {
                if k > 30 {
                    lemma_pow2_strictly_increases(30, k as nat);
                }
                assert(m <= MAX_PRICE_USD * pow2(k as nat)) by (nonlinear_arith)
                    requires
                        pow2(k as nat) >= 0x4000_0000,
                        m <= 0xffff_ffff_ffff_ffff,
                ;
            }
        }
        if k >= 100 {
            proof {
                lemma_pow2_adds(64, 31);
                lemma_pow2_strictly_increases(95, k as nat);
                assert(2 * m * NANOS_PER_USD < pow2(95)) by (nonlinear_arith)
                    requires
                        m <= 0xffff_ffff_ffff_ffff,
                        pow2(95) == pow2(64) * pow2(31),
                        pow2(64) == 0x1_0000_0000_0000_0000,
                        pow2(31) == 0x8000_0000,
                ;
                lemma_round_down_to_zero((m * NANOS_PER_USD) as nat, pow2(k as nat));
            }
            return Ok(0);
        }
        let d = pow2_u128(k);
        proof {
            lemma_pow2_adds(64, 36);
            lemma_pow2_adds(32, 4);
            if k < 100 {
                lemma_pow2_strictly_increases(k as nat, 100);
            }
            assert(pow2(100) == 0x10_0000_0000_0000_0000_0000_0000) by (nonlinear_arith)
                requires
                    pow2(100) == pow2(64) * pow2(36),
                    pow2(64) == 0x1_0000_0000_0000_0000,
                    pow2(36) == pow2(32) * pow2(4),
                    pow2(32) == 0x1_0000_0000,
                    pow2(4) == 16,
            ;
        }
        let x: u128 = 2 * (m as u128) * (NANOS_PER_USD as u128);
        let q: u128 = (x + d) / (2 * d);
        proof {
            assert(m * NANOS_PER_USD <= (MAX_PRICE_USD * NANOS_PER_USD) * d) by (nonlinear_arith)
                requires
                    m <= MAX_PRICE_USD * d,
            ;
            lemma_round_bounded((m * NANOS_PER_USD) as nat, d as nat, (MAX_PRICE_USD * NANOS_PER_USD) as nat);
        }
        Ok(q as u64)
    }
}

/// The whole dollars and the remaining nanodollars of a fixed-point price.
pub fn fixed_to_usd_parts(price: u64) -> (r: (u64, u64))
    ensures
        r.0 * NANOS_PER_USD + r.1 == price,
        r.1 < NANOS_PER_USD,
{
    (price / NANOS_PER_USD, price % NANOS_PER_USD)
}

/// Encoding an amount and reading the price back as dollars recovers the amount to
/// within half a nanodollar: `|price / 10^9 - n / d| <= 1 / (2 * 10^9)` for the
/// amount `n / d`. Negative amounts are refused with `OutOfRange` and amounts
/// above `MAX_PRICE_USD` with `Overflow`.
pub proof fn lemma_price_round_trip(a: UsdAmount)
    ensures
        a.negative && a.mantissa > 0 ==> fixed_price_of(a) == Err::<u64, OracleError>(
            OracleError::OutOfRange,
        ),
        !(a.negative && a.mantissa > 0) && amount_numerator(a) > MAX_PRICE_USD * amount_denominator(a)
            ==> fixed_price_of(a) == Err::<u64, OracleError>(OracleError::Overflow),
        !(a.negative && a.mantissa > 0) && amount_numerator(a) <= MAX_PRICE_USD * amount_denominator(a)
            ==> (fixed_price_of(a) matches Ok(p) && {
            let diff = p * amount_denominator(a) - amount_numerator(a) * NANOS_PER_USD;
            -(amount_denominator(a) as int) <= 2 * diff <= amount_denominator(a)
        }),
{
    let n = amount_numerator(a);
    let d = amount_denominator(a);
    if a.exponent < 0 {
        lemma_pow2_pos((-a.exponent) as nat);
    }
    if !(a.negative && a.mantissa > 0) && n <= MAX_PRICE_USD * d {
        let x = (n * NANOS_PER_USD) as nat;
        assert(x <= (MAX_PRICE_USD * NANOS_PER_USD) * d) by (nonlinear_arith)
            requires
                n <= MAX_PRICE_USD * d,
                x == n * NANOS_PER_USD,
        ;
        lemma_round_bounded(x, d, (MAX_PRICE_USD * NANOS_PER_USD) as nat);
        let (xi, di) = (x as int, d as int);
        let q = (2 * xi + di) / (2 * di);
        vstd::arithmetic::div_mod::lemma_div_pos_is_pos(2 * xi + di, 2 * di);
        assert(q == round_half_up(x, d));
        vstd::arithmetic::div_mod::lemma_fundamental_div_mod(2 * xi + di, 2 * di);
        let r = (2 * xi + di) % (2 * di);
        assert(2 * xi + di == (2 * di) * q + r);
        assert(0 <= r < 2 * di) by {
            vstd::arithmetic::div_mod::lemma_mod_pos_bound(2 * xi + di, 2 * di);
        }
        assert(2 * (q * di - xi) == di - r) by (nonlinear_arith)
            requires
                2 * xi + di == (2 * di) * q + r,
        ;
    }
}

} // verus!
