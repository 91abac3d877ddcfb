//! The machine's registers hold untyped 64-bit words. This module gives those
//! words their reading as IEEE 754 double-precision bit patterns: spec-level
//! accessors for the sign, exponent and fraction fields, an exact integer
//! model of a finite pattern's numeric value, verified classification,
//! comparison and float-to-integer conversion, and trusted wrappers around
//! software floating-point for the operations whose results rounding makes
//! infeasible to state directly (add, sub, mul, div, integer-to-float and
//! decimal-to-float conversion).
use core::cmp::Ordering;
use rustc_apfloat::Float;
use vstd::arithmetic::mul::{
    lemma_mul_inequality, lemma_mul_strict_inequality, lemma_mul_strictly_positive,
    lemma_mul_upper_bound,
};
use vstd::arithmetic::div_mod::{
    lemma_div_by_multiple, lemma_div_denominator, lemma_div_is_ordered,
};
use vstd::arithmetic::power2::{
    lemma2_to64, lemma2_to64_rest, lemma_pow2_adds, lemma_pow2_pos,
    lemma_pow2_strictly_increases, lemma_pow2_subtracts, lemma_pow2_unfold, pow2,
};
use vstd::bits::{lemma_u64_shl_is_mul, lemma_u64_shr_is_div};
use vstd::prelude::*;

verus! {

/// The exponent field: the top eleven bits below the sign bit.
pub open spec fn exp_field(b: u64) -> u64 {
    (b >> 52) & 0x7ff
}

/// The fraction (significand) field: the low 52 bits.
pub open spec fn frac_field(b: u64) -> u64 {
    b & 0xf_ffff_ffff_ffff
}

/// The sign bit.
pub open spec fn sign_field(b: u64) -> bool {
    (b >> 63) == 1
}

/// A NaN: all exponent bits set and a nonzero fraction.
pub open spec fn spec_is_nan(b: u64) -> bool {
    exp_field(b) == 0x7ff && frac_field(b) != 0
}

/// Positive or negative infinity: all exponent bits set, fraction zero.
pub open spec fn spec_is_infinity(b: u64) -> bool {
    exp_field(b) == 0x7ff && frac_field(b) == 0
}

/// A finite double: anything but NaN and the infinities.
pub open spec fn spec_is_finite(b: u64) -> bool {
    exp_field(b) != 0x7ff
}

/// Positive or negative zero.
pub open spec fn spec_is_zero(b: u64) -> bool {
    exp_field(b) == 0 && frac_field(b) == 0
}

/// The magnitude of a finite pattern, scaled by 2^1074 so that it is an
/// integer: a subnormal's value is frac * 2^-1074, a normal's is
/// (2^52 + frac) * 2^(exp - 1075).
pub open spec fn scaled_mag(b: u64) -> nat {
    if exp_field(b) == 0 {
        frac_field(b) as nat
    } else {
        ((0x10_0000_0000_0000 + frac_field(b)) * pow2((exp_field(b) - 1) as nat)) as nat
    }
}

/// The numeric value of a finite pattern, scaled by 2^1074: the unique
/// integer v with value == v / 2^1074.
pub open spec fn scaled_val(b: u64) -> int {
    if sign_field(b) {
        -(scaled_mag(b) as int)
    } else {
        scaled_mag(b) as int
    }
}

/// The two infinities' bit patterns.
pub open spec fn infinity_bits(negative: bool) -> u64 {
    if negative {
        0xfff0_0000_0000_0000
    } else {
        0x7ff0_0000_0000_0000
    }
}

/// The quiet NaN (empty payload) bit pattern with the given sign: what a
/// spelled-out NaN literal assembles to.
pub open spec fn quiet_nan_bits(negative: bool) -> u64 {
    if negative {
        0xfff8_0000_0000_0000
    } else {
        0x7ff8_0000_0000_0000
    }
}

/// The value is strictly below zero. NaN compares below nothing; negative
/// zero equals zero; negative infinity is below zero.
pub open spec fn spec_is_below_zero(b: u64) -> bool {
    !spec_is_nan(b) && sign_field(b) && !spec_is_zero(b)
}

#[verifier::when_used_as_spec(spec_is_nan)]
pub fn is_nan(b: u64) -> (r: bool)
    ensures
        r == spec_is_nan(b),
{
    (b >> 52) & 0x7ff == 0x7ff && b & 0xf_ffff_ffff_ffff != 0
}

#[verifier::when_used_as_spec(spec_is_infinity)]
pub fn is_infinity(b: u64) -> (r: bool)
    ensures
        r == spec_is_infinity(b),
{
    (b >> 52) & 0x7ff == 0x7ff && b & 0xf_ffff_ffff_ffff == 0
}

#[verifier::when_used_as_spec(spec_is_finite)]
pub fn is_finite(b: u64) -> (r: bool)
    ensures
        r == spec_is_finite(b),
{
    (b >> 52) & 0x7ff != 0x7ff
}

#[verifier::when_used_as_spec(spec_is_zero)]
pub fn is_zero(b: u64) -> (r: bool)
    ensures
        r == spec_is_zero(b),
{
    (b >> 52) & 0x7ff == 0 && b & 0xf_ffff_ffff_ffff == 0
}

#[verifier::when_used_as_spec(spec_is_below_zero)]
pub fn is_below_zero(b: u64) -> (r: bool)
    ensures
        r == spec_is_below_zero(b),
{
    !is_nan(b) && (b >> 63) == 1 && !is_zero(b)
}

/// The bit pattern of the rounded-to-nearest-even sum of the doubles the two
/// patterns encode.
pub uninterp spec fn f64_sum_bits(a: u64, b: u64) -> u64;

/// The bit pattern of the rounded difference.
pub uninterp spec fn f64_difference_bits(a: u64, b: u64) -> u64;

/// The bit pattern of the rounded product.
pub uninterp spec fn f64_product_bits(a: u64, b: u64) -> u64;

/// The bit pattern of the rounded quotient.
pub uninterp spec fn f64_quotient_bits(a: u64, b: u64) -> u64;

/// The bit pattern of the double nearest to the given unsigned integer.
pub uninterp spec fn f64_of_u64_bits(v: u64) -> u64;

/// The bit pattern of the double nearest to the given signed integer.
pub uninterp spec fn f64_of_i64_bits(v: i64) -> u64;

/// The bit pattern of the double a decimal (or hexadecimal) numeric text
/// denotes, rounded to nearest even, or None where the text is malformed.
pub uninterp spec fn f64_of_text_bits(s: Seq<char>) -> Option<u64>;

/// Relies on rustc_apfloat's IEEE double addition (Float::add_r, rounding to
/// nearest even): the result is a function of the two bit patterns alone.
#[verifier::external_body]
pub fn float_sum(a: u64, b: u64) -> (r: u64)
    ensures
        r == f64_sum_bits(a, b),
{
    let x = rustc_apfloat::ieee::Double::from_bits(a as u128);
    let y = rustc_apfloat::ieee::Double::from_bits(b as u128);
    (x + y).value.to_bits() as u64
}

/// Relies on rustc_apfloat's IEEE double subtraction (Float::sub_r).
#[verifier::external_body]
pub fn float_difference(a: u64, b: u64) -> (r: u64)
    ensures
        r == f64_difference_bits(a, b),
{
    let x = rustc_apfloat::ieee::Double::from_bits(a as u128);
    let y = rustc_apfloat::ieee::Double::from_bits(b as u128);
    (x - y).value.to_bits() as u64
}

/// Relies on rustc_apfloat's IEEE double multiplication (Float::mul_r).
#[verifier::external_body]
pub fn float_product(a: u64, b: u64) -> (r: u64)
    ensures
        r == f64_product_bits(a, b),
{
    let x = rustc_apfloat::ieee::Double::from_bits(a as u128);
    let y = rustc_apfloat::ieee::Double::from_bits(b as u128);
    (x * y).value.to_bits() as u64
}

/// Relies on rustc_apfloat's IEEE double division (Float::div_r).
#[verifier::external_body]
pub fn float_quotient(a: u64, b: u64) -> (r: u64)
    ensures
        r == f64_quotient_bits(a, b),
{
    let x = rustc_apfloat::ieee::Double::from_bits(a as u128);
    let y = rustc_apfloat::ieee::Double::from_bits(b as u128);
    (x / y).value.to_bits() as u64
}

/// Relies on rustc_apfloat's unsigned-integer-to-double conversion
/// (Float::from_u128_r, rounding to nearest even). Every 64-bit integer is
/// far inside the finite double range, so the result is finite.
#[verifier::external_body]
pub fn float_of_u64(v: u64) -> (r: u64)
    ensures
        r == f64_of_u64_bits(v),
        spec_is_finite(r),
{
    rustc_apfloat::ieee::Double::from_u128(v as u128).value.to_bits() as u64
}

/// Relies on rustc_apfloat's signed-integer-to-double conversion
/// (Float::from_i128_r, rounding to nearest even). Every 64-bit integer is
/// far inside the finite double range, so the result is finite.
#[verifier::external_body]
pub fn float_of_i64(v: i64) -> (r: u64)
    ensures
        r == f64_of_i64_bits(v),
        spec_is_finite(r),
{
    rustc_apfloat::ieee::Double::from_i128(v as i128).value.to_bits() as u64
}

/// Relies on rustc_apfloat's numeric-text-to-double conversion
/// (Float::from_str_r, rounding to nearest even): correctly rounded, and a
/// function of the text alone; malformed text yields a ParseError.
#[verifier::external_body]
pub fn float_of_text(s: &str) -> (r: Option<u64>)
    ensures
        r == f64_of_text_bits(s@),
{
    match s.parse::<rustc_apfloat::ieee::Double>() {
        Ok(d) => Some(d.to_bits() as u64),
        Err(_) => None,
    }
}


/// The low 63 bits: the exponent and fraction fields together, which for
/// finite patterns order magnitudes lexicographically.
pub open spec fn mag_bits(b: u64) -> u64 {
    b & 0x7fff_ffff_ffff_ffff
}

proof fn lemma_field_decomposition(b: u64)
    ensures
        mag_bits(b) == exp_field(b) * 0x10_0000_0000_0000 + frac_field(b),
        frac_field(b) < 0x10_0000_0000_0000,
        exp_field(b) <= 0x7ff,
        sign_field(b) <==> b >= 0x8000_0000_0000_0000,
{
    assert((b & 0x7fff_ffff_ffff_ffff) == ((b >> 52) & 0x7ff) * 0x10_0000_0000_0000 + (b
        & 0xf_ffff_ffff_ffff) && (b & 0xf_ffff_ffff_ffff) < 0x10_0000_0000_0000 && ((b >> 52)
        & 0x7ff) <= 0x7ff && ((b >> 63) == 1 <==> b >= 0x8000_0000_0000_0000)) by (bit_vector);
}

/// A finite magnitude is positive exactly when some exponent or fraction
/// bit is set.
proof fn lemma_mag_zero(b: u64)
    requires
        spec_is_finite(b),
    ensures
        scaled_mag(b) == 0 <==> mag_bits(b) == 0,
{
    lemma_field_decomposition(b);
    if exp_field(b) != 0 {
        lemma_pow2_pos((exp_field(b) - 1) as nat);
        lemma_mul_strictly_positive(
            0x10_0000_0000_0000 + frac_field(b),
            pow2((exp_field(b) - 1) as nat) as int,
        );
    }
}

/// For one finite pattern below another in its low 63 bits, the modeled
/// magnitude is strictly below as well.
proof fn lemma_mag_bits_lt(a: u64, b: u64)
    requires
        spec_is_finite(a),
        spec_is_finite(b),
        mag_bits(a) < mag_bits(b),
    ensures
        scaled_mag(a) < scaled_mag(b),
{
    lemma_field_decomposition(a);
    lemma_field_decomposition(b);
    let ea = exp_field(a);
    let fa = frac_field(a);
    let eb = exp_field(b);
    let fb = frac_field(b);
    assert(ea <= eb);
    if ea == eb {
        assert(fa < fb);
        if ea != 0 {
            lemma_pow2_pos((ea - 1) as nat);
            lemma_mul_strict_inequality(
                0x10_0000_0000_0000 + fa,
                0x10_0000_0000_0000 + fb,
                pow2((ea - 1) as nat) as int,
            );
        }
    } else {
        // ea < eb, so eb >= 1; the magnitude of b is at least 2^52 * 2^(eb-1),
        // while the magnitude of a is below 2^53 * 2^(ea-1) <= 2^52 * 2^ea.
        lemma_pow2_pos((eb - 1) as nat);
        lemma_mul_inequality(
            0x10_0000_0000_0000,
            0x10_0000_0000_0000 + fb,
            pow2((eb - 1) as nat) as int,
        );
        assert(0x10_0000_0000_0000 * pow2((eb - 1) as nat) <= scaled_mag(b));
        if ea == 0 {
            assert(pow2((eb - 1) as nat) >= 1);
            lemma_mul_inequality(1, pow2((eb - 1) as nat) as int, 0x10_0000_0000_0000);
            assert(scaled_mag(a) < 0x10_0000_0000_0000);
        } else {
            lemma_pow2_pos((ea - 1) as nat);
            lemma_mul_strict_inequality(
                0x10_0000_0000_0000 + fa,
                0x20_0000_0000_0000,
                pow2((ea - 1) as nat) as int,
            );
            lemma_pow2_unfold(ea as nat);
            assert(0x20_0000_0000_0000 * pow2((ea - 1) as nat) == 0x10_0000_0000_0000 * (2 * pow2(
                (ea - 1) as nat,
            ))) by (nonlinear_arith);
            assert(2 * pow2((ea - 1) as nat) == pow2(ea as nat));
            if ea < eb - 1 {
                lemma_pow2_strictly_increases(ea as nat, (eb - 1) as nat);
            }
            lemma_mul_inequality(
                pow2(ea as nat) as int,
                pow2((eb - 1) as nat) as int,
                0x10_0000_0000_0000,
            );
            assert(0x10_0000_0000_0000 * pow2(ea as nat) <= 0x10_0000_0000_0000 * pow2(
                (eb - 1) as nat,
            )) by (nonlinear_arith)
                requires
                    pow2(ea as nat) <= pow2((eb - 1) as nat),
            ;
        }
    }
}

/// The low 63 bits order finite magnitudes exactly.
proof fn lemma_mag_orders(a: u64, b: u64)
    requires
        spec_is_finite(a),
        spec_is_finite(b),
    ensures
        scaled_mag(a) < scaled_mag(b) <==> mag_bits(a) < mag_bits(b),
        scaled_mag(a) == scaled_mag(b) <==> mag_bits(a) == mag_bits(b),
{
    if mag_bits(a) < mag_bits(b) {
        lemma_mag_bits_lt(a, b);
    } else if mag_bits(b) < mag_bits(a) {
        lemma_mag_bits_lt(b, a);
    } else {
        // Equal low 63 bits mean equal fields, hence equal magnitudes.
        lemma_field_decomposition(a);
        lemma_field_decomposition(b);
        assert(exp_field(a) == exp_field(b) && frac_field(a) == frac_field(b));
    }
}

/// Three-way comparison of two finite doubles, straight off the bit
/// patterns: the result orders the modeled numeric values, with positive
/// and negative zero comparing equal.
pub fn float_compare(a: u64, b: u64) -> (r: Ordering)
    requires
        spec_is_finite(a),
        spec_is_finite(b),
    ensures
        (r == Ordering::Less <==> scaled_val(a) < scaled_val(b)),
        (r == Ordering::Equal <==> scaled_val(a) == scaled_val(b)),
        (r == Ordering::Greater <==> scaled_val(a) > scaled_val(b)),
{
    proof {
        lemma_mag_orders(a, b);
        lemma_mag_zero(a);
        lemma_mag_zero(b);
        lemma_field_decomposition(a);
        lemma_field_decomposition(b);
    }
    let amag = a & 0x7fff_ffff_ffff_ffff;
    let bmag = b & 0x7fff_ffff_ffff_ffff;
    let aneg = a >= 0x8000_0000_0000_0000;
    let bneg = b >= 0x8000_0000_0000_0000;
    if amag == 0 && bmag == 0 {
        Ordering::Equal
    } else if aneg != bneg {
        if aneg {
            Ordering::Less
        } else {
            Ordering::Greater
        }
    } else if !aneg {
        if amag < bmag {
            Ordering::Less
        } else if amag == bmag {
            Ordering::Equal
        } else {
            Ordering::Greater
        }
    } else {
        if bmag < amag {
            Ordering::Less
        } else if amag == bmag {
            Ordering::Equal
        } else {
            Ordering::Greater
        }
    }
}

/// For finite patterns, the sign-and-nonzero test is exactly the
/// strictly-below-zero test on the modeled value.
pub proof fn lemma_below_zero_is_negative(b: u64)
    requires
        spec_is_finite(b),
    ensures
        spec_is_below_zero(b) <==> scaled_val(b) < 0,
{
    lemma_mag_zero(b);
    lemma_field_decomposition(b);
}


/// The whole part of a finite pattern's magnitude: |value| rounded toward
/// zero, which may exceed what 64 bits can hold.
pub open spec fn trunc_mag(b: u64) -> nat {
    scaled_mag(b) / pow2(1074)
}

/// What Rust's saturating float-to-u64 conversion yields for this pattern:
/// NaN and everything below zero give 0, values past the top give u64::MAX,
/// anything else its whole part.
pub open spec fn to_u64_cast(b: u64) -> u64 {
    if spec_is_nan(b) {
        0
    } else if sign_field(b) {
        0
    } else if !spec_is_finite(b) {
        u64::MAX
    } else if trunc_mag(b) > u64::MAX {
        u64::MAX
    } else {
        trunc_mag(b) as u64
    }
}

/// What Rust's saturating float-to-i64 conversion yields: NaN gives 0,
/// values past either end saturate, anything else truncates toward zero.
pub open spec fn to_i64_cast(b: u64) -> i64 {
    if spec_is_nan(b) {
        0
    } else if !spec_is_finite(b) {
        if sign_field(b) {
            i64::MIN
        } else {
            i64::MAX
        }
    } else if sign_field(b) {
        if trunc_mag(b) >= 0x8000_0000_0000_0000 {
            i64::MIN
        } else {
            (-(trunc_mag(b) as int)) as i64
        }
    } else {
        if trunc_mag(b) >= 0x8000_0000_0000_0000 {
            i64::MAX
        } else {
            trunc_mag(b) as i64
        }
    }
}

/// The whole part of a finite pattern's magnitude, where it fits in 64 bits.
fn trunc_magnitude(b: u64) -> (t: Option<u64>)
    requires
        spec_is_finite(b),
    ensures
        match t {
            Some(v) => v == trunc_mag(b),
            None => trunc_mag(b) > u64::MAX,
        },
{
    proof {
        lemma_field_decomposition(b);
        lemma_pow2_pos(1074);
    }
    let e = (b >> 52) & 0x7ff;
    let f = b & 0xf_ffff_ffff_ffff;
    if e < 1023 {
        // The magnitude is below 2^1074, so the whole part is zero.
        proof {
            if e == 0 {
                lemma_pow2_strictly_increases(52, 1074);
                lemma2_to64();
                lemma2_to64_rest();
                assert(scaled_mag(b) < pow2(1074));
            } else {
                lemma_pow2_pos((e - 1) as nat);
                lemma_mul_strict_inequality(
                    0x10_0000_0000_0000 + f,
                    0x20_0000_0000_0000,
                    pow2((e - 1) as nat) as int,
                );
                lemma2_to64();
                lemma2_to64_rest();
                assert(0x20_0000_0000_0000 == pow2(53));
                lemma_pow2_adds(53, (e - 1) as nat);
                if e + 52 < 1074 {
                    lemma_pow2_strictly_increases((e + 52) as nat, 1074);
                }
                assert(scaled_mag(b) < pow2((e + 52) as nat));
            }
            assert(scaled_mag(b) / pow2(1074) == 0) by (nonlinear_arith)
                requires
                    scaled_mag(b) < pow2(1074),
                    pow2(1074) > 0,
            ;
        }
        Some(0)
    } else if e <= 1075 {
        let mf = f + 0x10_0000_0000_0000;
        let s = 1075 - e;
        let t = mf >> s;
        proof {
            lemma_u64_shr_is_div(mf, s);
            lemma_pow2_pos((e - 1) as nat);
            lemma_pow2_pos(s as nat);
            lemma_pow2_adds((e - 1) as nat, s as nat);
            lemma_div_denominator(
                scaled_mag(b) as int,
                pow2((e - 1) as nat) as int,
                pow2(s as nat) as int,
            );
            assert((mf * pow2((e - 1) as nat)) as int / pow2((e - 1) as nat) as int == mf as int)
                by {
                lemma_div_by_multiple(mf as int, pow2((e - 1) as nat) as int);
            }
        }
        Some(t)
    } else if e <= 1086 {
        let mf = f + 0x10_0000_0000_0000;
        let s = e - 1075;
        proof {
            lemma2_to64();
            lemma2_to64_rest();
            if (s as nat) < 11 {
                lemma_pow2_strictly_increases(s as nat, 11);
            }
            lemma_mul_upper_bound(mf as int, 0x1f_ffff_ffff_ffff, pow2(s as nat) as int, 0x800);
            lemma_u64_shl_is_mul(mf, s);
        }
        let t = mf << s;
        proof {
            lemma_pow2_pos(1074);
            lemma_pow2_pos(s as nat);
            lemma_pow2_adds(s as nat, 1074);
            assert(mf * pow2((e - 1) as nat) == (mf * pow2(s as nat)) * pow2(1074)) by (
            nonlinear_arith)
                requires
                    pow2((e - 1) as nat) == pow2(s as nat) * pow2(1074),
            ;
            lemma_div_by_multiple((mf * pow2(s as nat)) as int, pow2(1074) as int);
        }
        Some(t)
    } else {
        // e is at least 1087, so the whole part is at least 2^64.
        proof {
            lemma_pow2_pos((e - 1) as nat);
            lemma_mul_inequality(
                0x10_0000_0000_0000,
                (0x10_0000_0000_0000 + f) as int,
                pow2((e - 1) as nat) as int,
            );
            lemma2_to64();
            lemma2_to64_rest();
            assert(0x10_0000_0000_0000 == pow2(52));
            lemma_pow2_adds(52, (e - 1) as nat);
            lemma_div_is_ordered(
                pow2((e + 51) as nat) as int,
                scaled_mag(b) as int,
                pow2(1074) as int,
            );
            lemma_pow2_subtracts(1074, (e + 51) as nat);
            if 64 < e - 1023 {
                lemma_pow2_strictly_increases(64, (e - 1023) as nat);
            }
            assert(trunc_mag(b) >= pow2((e - 1023) as nat));
        }
        None
    }
}

/// Rust's saturating float-to-u64 conversion, computed from the bit fields.
pub fn float_to_u64(b: u64) -> (r: u64)
    ensures
        r == to_u64_cast(b),
{
    if is_nan(b) {
        0
    } else if b >> 63 == 1 {
        proof {
            lemma_field_decomposition(b);
        }
        0
    } else if !is_finite(b) {
        u64::MAX
    } else {
        proof {
            lemma_field_decomposition(b);
        }
        match trunc_magnitude(b) {
            Some(v) => v,
            None => u64::MAX,
        }
    }
}

/// Rust's saturating float-to-i64 conversion, computed from the bit fields.
pub fn float_to_i64(b: u64) -> (r: i64)
    ensures
        r == to_i64_cast(b),
{
    proof {
        lemma_field_decomposition(b);
    }
    if is_nan(b) {
        0
    } else if !is_finite(b) {
        if b >> 63 == 1 {
            i64::MIN
        } else {
            i64::MAX
        }
    } else {
        let neg = b >> 63 == 1;
        match trunc_magnitude(b) {
            Some(v) => {
                if neg {
                    if v >= 0x8000_0000_0000_0000 {
                        i64::MIN
                    } else {
                        -(v as i64)
                    }
                } else {
                    if v >= 0x8000_0000_0000_0000 {
                        i64::MAX
                    } else {
                        v as i64
                    }
                }
            },
            None => {
                if neg {
                    i64::MIN
                } else {
                    i64::MAX
                }
            },
        }
    }
}

} // verus!
