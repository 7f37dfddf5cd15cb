//! Ordering of IEEE-754 double-precision values, computed on their bit
//! patterns with integer arithmetic only.
//!
//! Directory values may hold non-integer JSON numbers. The engine never does
//! arithmetic on them; it only orders them for include filters and sort keys.
//! A number is carried as the 64 bits of its double-precision encoding, and
//! the order is computed here directly from the sign, exponent, and fraction
//! fields, exactly as the encoded values compare: NaN compares to nothing,
//! the two zeros are equal, and otherwise the wider-magnitude value wins.
//! A 64-bit integer compared against an encoded value is first rounded to
//! the nearest 53-bit-mantissa magnitude (ties to even), exactly as the
//! conversion of the integer to double precision rounds it.

use vstd::prelude::*;
use vstd::arithmetic::power2::{
    pow2, lemma_pow2_adds, lemma_pow2_strictly_increases, lemma2_to64, lemma2_to64_rest,
};

verus! {

use core::cmp::Ordering;

broadcast use vstd::arithmetic::power2::lemma_pow2_pos;

/// The biased exponent field: bits 52..=62.
pub open spec fn spec_exp_field(bits: u64) -> u64 {
    (bits / 0x10_0000_0000_0000) % 0x800
}

/// The fraction field: bits 0..=51.
pub open spec fn spec_frac_field(bits: u64) -> u64 {
    bits % 0x10_0000_0000_0000
}

/// The sign bit.
pub open spec fn spec_sign_bit(bits: u64) -> bool {
    bits / 0x8000_0000_0000_0000 == 1
}

/// NaN: exponent field all ones with a nonzero fraction.
pub open spec fn spec_is_nan(bits: u64) -> bool {
    spec_exp_field(bits) == 0x7FF && spec_frac_field(bits) != 0
}

/// Infinity: exponent field all ones with a zero fraction.
pub open spec fn spec_is_inf(bits: u64) -> bool {
    spec_exp_field(bits) == 0x7FF && spec_frac_field(bits) == 0
}

/// Zero (either sign): all bits outside the sign are zero.
pub open spec fn spec_is_zero(bits: u64) -> bool {
    spec_exp_field(bits) == 0 && spec_frac_field(bits) == 0
}

/// The magnitude bits: everything but the sign. For two finite values of the
/// same sign, the one with the larger magnitude bits is farther from zero.
pub open spec fn spec_magnitude(bits: u64) -> u64 {
    bits % 0x8000_0000_0000_0000
}

/// True when the encoded value is strictly negative (negative zero is not).
pub open spec fn spec_is_neg(bits: u64) -> bool {
    spec_sign_bit(bits) && !spec_is_zero(bits)
}

/// Order of two encoded values: `None` when either is NaN, else the standard
/// order, with `-0 == +0`. For same-sign finite values the encoding is
/// monotone in the magnitude bits, which is the fact this definition rests on.
pub open spec fn spec_double_cmp(a: u64, b: u64) -> Option<Ordering> {
    if spec_is_nan(a) || spec_is_nan(b) {
        None
    } else if spec_is_zero(a) && spec_is_zero(b) {
        Some(Ordering::Equal)
    } else if spec_is_neg(a) && !spec_is_neg(b) {
        Some(Ordering::Less)
    } else if !spec_is_neg(a) && spec_is_neg(b) {
        Some(Ordering::Greater)
    } else if spec_is_neg(a) {
        // Both strictly negative: reversed magnitude order.
        if spec_magnitude(a) < spec_magnitude(b) {
            Some(Ordering::Greater)
        } else if spec_magnitude(a) == spec_magnitude(b) {
            Some(Ordering::Equal)
        } else {
            Some(Ordering::Less)
        }
    } else {
        if spec_magnitude(a) < spec_magnitude(b) {
            Some(Ordering::Less)
        } else if spec_magnitude(a) == spec_magnitude(b) {
            Some(Ordering::Equal)
        } else {
            Some(Ordering::Greater)
        }
    }
}

/// Compare two encoded double-precision values.
pub fn double_cmp(a: u64, b: u64) -> (r: Option<Ordering>)
    ensures
        r == spec_double_cmp(a, b),
{
    let a_exp: u64 = (a / 0x10_0000_0000_0000) % 0x800;
    let a_frac: u64 = a % 0x10_0000_0000_0000;
    let b_exp: u64 = (b / 0x10_0000_0000_0000) % 0x800;
    let b_frac: u64 = b % 0x10_0000_0000_0000;

    if (a_exp == 0x7FF && a_frac != 0) || (b_exp == 0x7FF && b_frac != 0) {
        return None;
    }

    let a_zero: bool = a_exp == 0 && a_frac == 0;
    let b_zero: bool = b_exp == 0 && b_frac == 0;
    if a_zero && b_zero {
        return Some(Ordering::Equal);
    }

    let a_neg: bool = a / 0x8000_0000_0000_0000 == 1 && !a_zero;
    let b_neg: bool = b / 0x8000_0000_0000_0000 == 1 && !b_zero;
    if a_neg && !b_neg {
        return Some(Ordering::Less);
    }
    if !a_neg && b_neg {
        return Some(Ordering::Greater);
    }

    let a_mag: u64 = a % 0x8000_0000_0000_0000;
    let b_mag: u64 = b % 0x8000_0000_0000_0000;
    if a_neg {
        if a_mag < b_mag {
            Some(Ordering::Greater)
        } else if a_mag == b_mag {
            Some(Ordering::Equal)
        } else {
            Some(Ordering::Less)
        }
    } else {
        if a_mag < b_mag {
            Some(Ordering::Less)
        } else if a_mag == b_mag {
            Some(Ordering::Equal)
        } else {
            Some(Ordering::Greater)
        }
    }
}

/// The scaled integer magnitude of a finite encoded value: the fraction with
/// the implicit leading bit (for normal values), and the power of two that
/// multiplies it, shifted so the power is never negative. The encoded value's
/// magnitude equals `m * 2^k / 2^1075`.
pub open spec fn spec_scaled_parts(bits: u64) -> (nat, nat) {
    if spec_exp_field(bits) == 0 {
        // Subnormal: frac * 2^-1074 = (frac * 2^1) / 2^1075.
        (spec_frac_field(bits) as nat, 1)
    } else {
        // Normal: (2^52 + frac) * 2^(E - 1075).
        ((0x10_0000_0000_0000 + spec_frac_field(bits)) as nat, spec_exp_field(bits) as nat)
    }
}

/// Order of a mathematical integer against a finite, nonzero, positive-
/// magnitude comparison: compares `mag_i` with `m * 2^k / 2^1075` by cross
/// multiplication, i.e. `mag_i * 2^1075` against `m * 2^k`.
pub open spec fn spec_cmp_nat_mag(mag_i: nat, bits: u64) -> Ordering {
    let (m, k) = spec_scaled_parts(bits);
    let lhs = mag_i * pow2(1075);
    let rhs = m * pow2(k);
    if lhs < rhs {
        Ordering::Less
    } else if lhs == rhs {
        Ordering::Equal
    } else {
        Ordering::Greater
    }
}

/// The power of two that scales a magnitude down to at most 53 bits:
/// the smallest `p` with `mag / p < 2^53`.
pub open spec fn spec_conv_scale(mag: nat) -> nat
    decreases mag,
{
    if mag < 0x20_0000_0000_0000 {
        1
    } else {
        2 * spec_conv_scale(mag / 2)
    }
}

/// A magnitude rounded to the nearest multiple of its conversion scale,
/// ties to even: the magnitude that converting the integer to double
/// precision yields. Magnitudes below `2^53` are exact.
pub open spec fn spec_round_mag(mag: nat) -> nat {
    let p = spec_conv_scale(mag);
    let q = mag / p;
    let rem = mag % p;
    if 2 * rem > p || (2 * rem == p && q % 2 == 1) {
        (q + 1) * p
    } else {
        q * p
    }
}

/// The conversion scale is the power of two a doubling search finds.
proof fn lemma_conv_scale_fix(mag: nat, k: nat)
    requires
        mag / pow2(k) < 0x20_0000_0000_0000,
        k > 0 ==> mag / pow2((k - 1) as nat) >= 0x20_0000_0000_0000,
    ensures
        spec_conv_scale(mag) == pow2(k),
    decreases mag,
{
    lemma2_to64();
    lemma2_to64_rest();
    if mag < 0x20_0000_0000_0000 {
        if k > 0 {
            assert(mag / pow2((k - 1) as nat) <= mag) by {
                vstd::arithmetic::div_mod::lemma_div_is_ordered_by_denominator(
                    mag as int,
                    1,
                    pow2((k - 1) as nat) as int,
                );
            }
        }
        assert(pow2(0) == 1);
    } else {
        assert(k > 0) by {
            if k == 0 {
                assert(pow2(0) == 1);
                assert(mag / 1 == mag) by (nonlinear_arith);
            }
        }
        assert(pow2(k) == 2 * pow2((k - 1) as nat)) by {
            lemma_pow2_adds(1, (k - 1) as nat);
        }
        assert((mag / 2) / pow2((k - 1) as nat) == mag / pow2(k)) by {
            vstd::arithmetic::div_mod::lemma_div_denominator(
                mag as int,
                2,
                pow2((k - 1) as nat) as int,
            );
        }
        if k - 1 > 0 {
            assert(pow2((k - 1) as nat) == 2 * pow2((k - 2) as nat)) by {
                lemma_pow2_adds(1, (k - 2) as nat);
            }
            assert((mag / 2) / pow2((k - 2) as nat) == mag / pow2((k - 1) as nat)) by {
                vstd::arithmetic::div_mod::lemma_div_denominator(
                    mag as int,
                    2,
                    pow2((k - 2) as nat) as int,
                );
            }
        }
        lemma_conv_scale_fix(mag / 2, (k - 1) as nat);
    }
}

/// Round a magnitude as the conversion to double precision does.
#[verifier::loop_isolation(false)]
#[verifier::rlimit(100)]
fn round_mag_u64(mag: u64) -> (r: u64)
    requires
        1 <= mag <= 0x8000_0000_0000_0000,
    ensures
        r == spec_round_mag(mag as nat),
        1 <= r <= 0x8000_0000_0000_0000,
{
    proof {
        lemma2_to64();
        lemma2_to64_rest();
    }
    if mag < 0x20_0000_0000_0000 {
        proof {
            assert(spec_conv_scale(mag as nat) == 1);
            assert(mag as nat % 1 == 0) by (nonlinear_arith);
            assert(mag as nat / 1 == mag as nat) by (nonlinear_arith);
            assert(spec_round_mag(mag as nat) == mag as nat) by (nonlinear_arith)
                requires
                    spec_conv_scale(mag as nat) == 1,
            ;
        }
        return mag;
    }
    let mut p: u64 = 1;
    let ghost mut k: nat = 0;
    while mag / p >= 0x20_0000_0000_0000
        invariant
            1 <= p <= 0x800,
            p == pow2(k),
            k > 0 ==> mag as nat / pow2((k - 1) as nat) >= 0x20_0000_0000_0000,
        decreases 0x800 - p,
    {
        proof {
            // The scale stays small: p * 2^53 <= mag <= 2^63.
            assert(p * 0x20_0000_0000_0000 <= mag) by (nonlinear_arith)
                requires
                    mag / p >= 0x20_0000_0000_0000,
                    p >= 1,
                    mag >= 0,
                ;
            assert(p <= 0x400) by (nonlinear_arith)
                requires
                    p * 0x20_0000_0000_0000 <= mag,
                    mag <= 0x8000_0000_0000_0000,
                ;
            lemma_pow2_adds(k, 1);
            k = k + 1;
        }
        p = p * 2;
    }
    proof {
        assert(mag as nat / pow2(k) < 0x20_0000_0000_0000);
        lemma_conv_scale_fix(mag as nat, k);
    }
    let q: u64 = mag / p;
    let rem: u64 = mag % p;
    let rounded: u64 = if 2 * rem > p || (2 * rem == p && q % 2 == 1) {
        q + 1
    } else {
        q
    };
    proof {
        // The result is a multiple of p no larger than 2^63, which is itself
        // a multiple of p.
        assert(k <= 11) by {
            if k >= 12 {
                lemma_pow2_le(12, k);
            }
        }
        let m63 = pow2((63 - k) as nat);
        assert(pow2(63) == pow2(k) * m63) by {
            lemma_pow2_adds(k, (63 - k) as nat);
        }
        assert(q * p + rem == mag) by (nonlinear_arith)
            requires
                q == mag as nat / p as nat,
                rem == mag as nat % p as nat,
                p >= 1,
        ;
        if mag < 0x8000_0000_0000_0000 {
            assert(q < m63) by (nonlinear_arith)
                requires
                    q * p <= mag,
                    (mag as nat) < pow2(63),
                    pow2(63) == p * m63,
                    p >= 1,
                    rem >= 0,
            ;
            assert((q + 1) * p <= m63 * p) by (nonlinear_arith)
                requires
                    q + 1 <= m63,
                    p >= 1,
            ;
            assert(m63 * p == pow2(63)) by (nonlinear_arith)
                requires
                    pow2(63) == p * m63,
            ;
        } else {
            assert(mag == pow2(63));
            assert(rem == 0) by (nonlinear_arith)
                requires
                    mag as nat % p as nat == rem,
                    pow2(63) == p * m63,
                    mag == pow2(63),
                    p >= 1,
            ;
        }
        assert(rem < p);
        assert(rounded >= 1) by (nonlinear_arith)
            requires
                q * p + rem == mag,
                mag >= 0x20_0000_0000_0000,
                rounded >= q,
                1 <= p <= 0x800,
                rem < p,
            ;
        assert(rounded * p >= rounded) by (nonlinear_arith)
            requires
                p >= 1,
                rounded >= 0,
            ;
        assert(q * p <= mag) by (nonlinear_arith)
            requires
                q * p + rem == mag,
                rem >= 0,
            ;
    }
    rounded * p
}

/// Order of a 64-bit integer against an encoded double-precision value:
/// the integer is rounded as its conversion to double precision rounds it,
/// then the two are compared exactly. `None` when the encoding is NaN.
pub open spec fn spec_int_double_cmp(i: int, bits: u64) -> Option<Ordering> {
    if spec_is_nan(bits) {
        None
    } else if spec_is_inf(bits) {
        if spec_sign_bit(bits) {
            Some(Ordering::Greater)
        } else {
            Some(Ordering::Less)
        }
    } else if i == 0 && spec_is_zero(bits) {
        Some(Ordering::Equal)
    } else if i == 0 {
        if spec_is_neg(bits) {
            Some(Ordering::Greater)
        } else {
            Some(Ordering::Less)
        }
    } else if spec_is_zero(bits) {
        if i < 0 {
            Some(Ordering::Less)
        } else {
            Some(Ordering::Greater)
        }
    } else if i < 0 && !spec_is_neg(bits) {
        Some(Ordering::Less)
    } else if i > 0 && spec_is_neg(bits) {
        Some(Ordering::Greater)
    } else if i > 0 {
        Some(spec_cmp_nat_mag(spec_round_mag(i as nat), bits))
    } else {
        Some(reverse_ordering(spec_cmp_nat_mag(spec_round_mag((-i) as nat), bits)))
    }
}

/// Swap `Less` and `Greater`.
pub open spec fn reverse_ordering(o: Ordering) -> Ordering {
    match o {
        Ordering::Less => Ordering::Greater,
        Ordering::Greater => Ordering::Less,
        Ordering::Equal => Ordering::Equal,
    }
}

/// `pow2` is monotone (non-strict).
proof fn lemma_pow2_le(e1: nat, e2: nat)
    requires
        e1 <= e2,
    ensures
        pow2(e1) <= pow2(e2),
{
    if e1 < e2 {
        lemma_pow2_strictly_increases(e1, e2);
    }
}

/// Compare a nonzero integer magnitude with the magnitude of a finite,
/// nonzero encoded value.
fn cmp_mag_with_double(mag_i: u64, bits: u64) -> (r: Ordering)
    requires
        mag_i >= 1,
        !spec_is_nan(bits),
        !spec_is_inf(bits),
        !spec_is_zero(bits),
    ensures
        r == spec_cmp_nat_mag(mag_i as nat, bits),
{
    let exp: u64 = (bits / 0x10_0000_0000_0000) % 0x800;
    let frac: u64 = bits % 0x10_0000_0000_0000;
    let m: u64 = if exp == 0 {
        frac
    } else {
        0x10_0000_0000_0000 + frac
    };
    let k: u64 = if exp == 0 {
        1
    } else {
        exp
    };
    proof {
        lemma2_to64();
            lemma2_to64_rest();
        assert(spec_scaled_parts(bits) == (m as nat, k as nat));
    }
    if k >= 1087 {
        // The encoded magnitude is m * 2^(k - 1075) with m >= 2^52, so it is
        // at least 2^64 and exceeds any 64-bit integer magnitude.
        proof {
            assert(m >= pow2(52)) by {
                lemma2_to64();
            lemma2_to64_rest();
            }
            lemma_pow2_adds(52, (k - 1075) as nat);
            lemma_pow2_le(12, (k - 1075) as nat);
            lemma_pow2_adds(1075, (k - 1075) as nat);
            assert(pow2(52) * pow2((k - 1075) as nat) >= pow2(52) * pow2(12)) by (nonlinear_arith)
                requires
                    pow2((k - 1075) as nat) >= pow2(12),
            ;
            assert(m * pow2((k - 1075) as nat) >= pow2(52) * pow2((k - 1075) as nat))
                by (nonlinear_arith)
                requires
                    m >= pow2(52),
            ;
            lemma_pow2_adds(52, 12);
            assert(pow2(64) > mag_i) by {
                lemma2_to64();
            lemma2_to64_rest();
            }
            // m * 2^k = (m * 2^(k-1075)) * 2^1075 >= 2^64 * 2^1075 > mag_i * 2^1075.
            assert(m * pow2(k as nat) == (m * pow2((k - 1075) as nat)) * pow2(1075)) by {
                lemma_pow2_adds((k - 1075) as nat, 1075);
                assert(m * (pow2((k - 1075) as nat) * pow2(1075)) == (m * pow2(
                    (k - 1075) as nat,
                )) * pow2(1075)) by (nonlinear_arith);
            }
            assert((mag_i as nat) * pow2(1075) < (m * pow2((k - 1075) as nat)) * pow2(1075))
                by (nonlinear_arith)
                requires
                    (mag_i as nat) < pow2(64),
                    m * pow2((k - 1075) as nat) >= pow2(64),
                    pow2(1075) > 0,
            ;
        }
        return Ordering::Less;
    }
    if k >= 1075 {
        // 0 <= k - 1075 <= 11: the product m * 2^(k-1075) fits easily.
        let e: u64 = k - 1075;
        let scale: u128 = pow2_u128(e);
        proof {
            assert((m as nat) * (scale as nat) <= 0x20_0000_0000_0000 * 0x10_0000_0000_0000)
                by (nonlinear_arith)
                requires
                    (m as nat) <= 0x20_0000_0000_0000,
                    (scale as nat) <= 0x10_0000_0000_0000,
            ;
        }
        let p: u128 = (m as u128) * scale;
        proof {
            lemma_pow2_adds((k - 1075) as nat, 1075);
            // mag_i * 2^1075 vs m * 2^(k-1075) * 2^1075: divide out 2^1075.
            assert((mag_i as nat) * pow2(1075) < (m as nat) * pow2(k as nat) <==> (mag_i as nat)
                < (m as nat) * pow2((k - 1075) as nat)) by (nonlinear_arith)
                requires
                    pow2(1075) > 0,
                    pow2(k as nat) == pow2((k - 1075) as nat) * pow2(1075),
            ;
            assert((mag_i as nat) * pow2(1075) == (m as nat) * pow2(k as nat) <==> (mag_i as nat)
                == (m as nat) * pow2((k - 1075) as nat)) by (nonlinear_arith)
                requires
                    pow2(1075) > 0,
                    pow2(k as nat) == pow2((k - 1075) as nat) * pow2(1075),
            ;
        }
        if (mag_i as u128) < p {
            Ordering::Less
        } else if (mag_i as u128) == p {
            Ordering::Equal
        } else {
            Ordering::Greater
        }
    } else {
        // k < 1075: compare mag_i * 2^(1075-k) with m.
        let d: u64 = 1075 - k;
        if d >= 53 {
            // mag_i >= 1, so mag_i * 2^d >= 2^53 > m.
            proof {
                assert(m < pow2(53)) by {
                    lemma2_to64();
            lemma2_to64_rest();
                }
                lemma_pow2_le(53, d as nat);
                assert((mag_i as nat) * pow2(d as nat) >= pow2(d as nat)) by (nonlinear_arith)
                    requires
                        mag_i >= 1,
                        pow2(d as nat) > 0,
                ;
                lemma_pow2_adds(k as nat, d as nat);
                // mag_i * 2^1075 = (mag_i * 2^d) * 2^k > m * 2^k.
                assert((mag_i as nat) * pow2(1075) == ((mag_i as nat) * pow2(d as nat)) * pow2(
                    k as nat,
                )) by (nonlinear_arith)
                    requires
                        pow2(1075) == pow2(k as nat) * pow2(d as nat),
                ;
                assert(((mag_i as nat) * pow2(d as nat)) * pow2(k as nat) > (m as nat) * pow2(
                    k as nat,
                )) by (nonlinear_arith)
                    requires
                        (mag_i as nat) * pow2(d as nat) > m as nat,
                        pow2(k as nat) > 0,
                ;
            }
            return Ordering::Greater;
        }
        let scale: u128 = pow2_u128(d);
        proof {
            assert((mag_i as u128) <= 0xFFFF_FFFF_FFFF_FFFF);
            assert(pow2(52) == 0x10_0000_0000_0000) by {
                lemma2_to64();
            lemma2_to64_rest();
            }
            assert((mag_i as nat) * pow2(d as nat) <= 0xFFFF_FFFF_FFFF_FFFF * 0x10_0000_0000_0000)
                by (nonlinear_arith)
                requires
                    (mag_i as nat) <= 0xFFFF_FFFF_FFFF_FFFF,
                    pow2(d as nat) <= 0x10_0000_0000_0000,
            ;
        }
        let p: u128 = (mag_i as u128) * scale;
        proof {
            lemma_pow2_adds(k as nat, d as nat);
            assert((mag_i as nat) * pow2(1075) < (m as nat) * pow2(k as nat) <==> (mag_i as nat)
                * pow2(d as nat) < (m as nat)) by (nonlinear_arith)
                requires
                    pow2(k as nat) > 0,
                    pow2(1075) == pow2(k as nat) * pow2(d as nat),
            ;
            assert((mag_i as nat) * pow2(1075) == (m as nat) * pow2(k as nat) <==> (mag_i as nat)
                * pow2(d as nat) == (m as nat)) by (nonlinear_arith)
                requires
                    pow2(k as nat) > 0,
                    pow2(1075) == pow2(k as nat) * pow2(d as nat),
            ;
        }
        if p < (m as u128) {
            Ordering::Less
        } else if p == (m as u128) {
            Ordering::Equal
        } else {
            Ordering::Greater
        }
    }
}

/// `2^e` as a 128-bit integer, for small exponents.
fn pow2_u128(e: u64) -> (r: u128)
    requires
        e <= 52,
    ensures
        r == pow2(e as nat),
        r <= 0x10_0000_0000_0000,
{
    let mut j: u64 = 0;
    let mut scale: u128 = 1;
    proof {
        lemma2_to64();
            lemma2_to64_rest();
        assert(pow2(0) == 1);
    }
    while j < e
        invariant
            j <= e <= 52,
            scale == pow2(j as nat),
            scale <= 0x10_0000_0000_0000,
        decreases e - j,
    {
        proof {
            lemma_pow2_adds(j as nat, 1);
            lemma2_to64();
            lemma2_to64_rest();
            lemma_pow2_le((j + 1) as nat, 52);
        }
        scale = scale * 2;
        j = j + 1;
    }
    proof {
        lemma2_to64();
            lemma2_to64_rest();
        lemma_pow2_le(e as nat, 52);
    }
    scale
}

/// Compare a 64-bit integer with an encoded double-precision value, with
/// the integer rounded as its conversion to double precision rounds it.
pub fn int_double_cmp(i: i64, bits: u64) -> (r: Option<Ordering>)
    ensures
        r == spec_int_double_cmp(i as int, bits),
{
    let exp: u64 = (bits / 0x10_0000_0000_0000) % 0x800;
    let frac: u64 = bits % 0x10_0000_0000_0000;
    if exp == 0x7FF && frac != 0 {
        return None;
    }
    let neg_bit: bool = bits / 0x8000_0000_0000_0000 == 1;
    if exp == 0x7FF {
        return if neg_bit {
            Some(Ordering::Greater)
        } else {
            Some(Ordering::Less)
        };
    }
    let f_zero: bool = exp == 0 && frac == 0;
    if i == 0 && f_zero {
        return Some(Ordering::Equal);
    }
    if i == 0 {
        return if neg_bit {
            Some(Ordering::Greater)
        } else {
            Some(Ordering::Less)
        };
    }
    if f_zero {
        return if i < 0 {
            Some(Ordering::Less)
        } else {
            Some(Ordering::Greater)
        };
    }
    if i < 0 && !neg_bit {
        return Some(Ordering::Less);
    }
    if i > 0 && neg_bit {
        return Some(Ordering::Greater);
    }
    if i > 0 {
        let rmag = round_mag_u64(i as u64);
        Some(cmp_mag_with_double(rmag, bits))
    } else {
        // -i64::MIN does not fit in i64; negate through u64.
        let mag: u64 = if i == i64::MIN {
            0x8000_0000_0000_0000
        } else {
            (-i) as u64
        };
        let rmag = round_mag_u64(mag);
        let c = cmp_mag_with_double(rmag, bits);
        Some(
            match c {
                Ordering::Less => Ordering::Greater,
                Ordering::Greater => Ordering::Less,
                Ordering::Equal => Ordering::Equal,
            },
        )
    }
}

} // verus!
