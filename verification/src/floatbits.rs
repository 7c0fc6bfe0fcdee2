//! IEEE-754 bit patterns: classification, sign flip, NaN-aware equality and
//! the saturating float-to-integer conversion of Rust's `as`.
use vstd::prelude::*;
use vstd::arithmetic::power2::{pow2, lemma2_to64, lemma_pow2_adds, lemma_pow2_pos};
use vstd::arithmetic::mul::lemma_mul_inequality;
use vstd::bits::{lemma_u64_shl_is_mul, lemma_u64_shr_is_div};

verus! {

/// Biased exponent field of a double.
pub open spec fn f64_exp(bits: u64) -> int {
    ((bits >> 52u64) & 0x7ffu64) as int
}

/// Fraction field of a double.
pub open spec fn f64_frac(bits: u64) -> int {
    (bits & 0xf_ffff_ffff_ffffu64) as int
}

/// Sign bit of a double.
pub open spec fn f64_sign(bits: u64) -> bool {
    (bits >> 63u64) == 1
}

/// Biased exponent field of a single.
pub open spec fn f32_exp(bits: u32) -> int {
    ((bits >> 23u32) & 0xffu32) as int
}

/// Fraction field of a single.
pub open spec fn f32_frac(bits: u32) -> int {
    (bits & 0x7f_ffffu32) as int
}

/// Sign bit of a single.
pub open spec fn f32_sign(bits: u32) -> bool {
    (bits >> 31u32) == 1
}

pub open spec fn f64_is_nan(bits: u64) -> bool {
    f64_exp(bits) == 0x7ff && f64_frac(bits) != 0
}

pub open spec fn f64_is_inf(bits: u64) -> bool {
    f64_exp(bits) == 0x7ff && f64_frac(bits) == 0
}

pub open spec fn f32_is_nan(bits: u32) -> bool {
    f32_exp(bits) == 0xff && f32_frac(bits) != 0
}

pub open spec fn f32_is_inf(bits: u32) -> bool {
    f32_exp(bits) == 0xff && f32_frac(bits) == 0
}

/// Magnitude of a finite float truncated towards zero, given its exponent and
/// fraction fields, the fraction width and the exponent bias plus fraction width.
pub open spec fn trunc_magnitude(exp: int, frac: int, frac_bits: nat, shift_bias: int) -> nat {
    if exp == 0 {
        0
    } else {
        let m = (frac + pow2(frac_bits)) as nat;
        if exp >= shift_bias {
            m * pow2((exp - shift_bias) as nat)
        } else {
            m / pow2((shift_bias - exp) as nat)
        }
    }
}

/// `v` limited to `[lo, hi]`.
pub open spec fn clamp(v: int, lo: int, hi: int) -> int {
    if v < lo { lo } else if v > hi { hi } else { v }
}

/// Rust's saturating float-to-integer `as` conversion into `[lo, hi]`:
/// NaN gives 0, infinities the bound of their sign, finite values are
/// truncated towards zero and clamped.
pub open spec fn float_to_int(nan: bool, inf: bool, neg: bool, mag: nat, lo: int, hi: int) -> int {
    if nan {
        0
    } else if inf {
        if neg { lo } else { hi }
    } else {
        clamp(if neg { -(mag as int) } else { mag as int }, lo, hi)
    }
}

/// Saturating conversion of the double with bit pattern `bits` into `[lo, hi]`.
pub open spec fn f64_to_int(bits: u64, lo: int, hi: int) -> int {
    float_to_int(
        f64_is_nan(bits),
        f64_is_inf(bits),
        f64_sign(bits),
        trunc_magnitude(f64_exp(bits), f64_frac(bits), 52, 1075),
        lo,
        hi,
    )
}

/// Saturating conversion of the single with bit pattern `bits` into `[lo, hi]`.
pub open spec fn f32_to_int(bits: u32, lo: int, hi: int) -> int {
    float_to_int(
        f32_is_nan(bits),
        f32_is_inf(bits),
        f32_sign(bits),
        trunc_magnitude(f32_exp(bits), f32_frac(bits), 23, 150),
        lo,
        hi,
    )
}

/// Sign, and magnitude when it is below 2^64, of a truncated float.
pub struct Truncated {
    pub nan: bool,
    pub neg: bool,
    /// `None` when the value is infinite or its truncated magnitude is at least 2^64.
    pub mag: Option<u64>,
}

proof fn lemma_big_magnitude(m: nat, fb: nat, e: nat)
    requires
        m >= pow2(fb),
        fb + e >= 64,
    ensures
        m * pow2(e) >= pow2(64),
{
    lemma_pow2_adds(fb, e);
    lemma_pow2_pos(e);
    lemma_mul_inequality(pow2(fb) as int, m as int, pow2(e) as int);
    if fb + e > 64 {
        vstd::arithmetic::power2::lemma_pow2_strictly_increases(64, fb + e);
    }
}

/// Truncation of a float given its classification and fields.
fn truncate_fields(
    nan: bool,
    inf: bool,
    neg: bool,
    exp: u64,
    frac: u64,
    frac_bits: u64,
    shift_bias: u64,
) -> (t: Truncated)
    requires
        frac_bits <= 52,
        frac < pow2(frac_bits as nat),
        exp < 2048,
        shift_bias <= 2048,
        frac_bits < shift_bias,
    ensures
        t.nan == nan,
        t.neg == neg,
        !nan && !inf ==> (t.mag matches Some(v) ==> v == trunc_magnitude(
            exp as int,
            frac as int,
            frac_bits as nat,
            shift_bias as int,
        )),
        !nan && !inf ==> (t.mag is None ==> trunc_magnitude(
            exp as int,
            frac as int,
            frac_bits as nat,
            shift_bias as int,
        ) >= pow2(64)),
        inf ==> t.mag is None,
{
    if nan || inf {
        return Truncated { nan, neg, mag: None };
    }
    if exp == 0 {
        return Truncated { nan, neg, mag: Some(0) };
    }
    proof {
        lemma2_to64();
        vstd::arithmetic::power2::lemma2_to64_rest();
        vstd::arithmetic::power2::lemma_pow2_strictly_increases(frac_bits as nat, 64);
        lemma_pow2_adds(frac_bits as nat, 1);
        vstd::arithmetic::power2::lemma_pow2_strictly_increases(frac_bits as nat + 1, 64);
    }
    let one: u64 = 1;
    assert(one << frac_bits == pow2(frac_bits as nat)) by {
        lemma_u64_shl_is_mul(one, frac_bits);
    }
    let m: u64 = frac + (one << frac_bits);
    assert(m < pow2(frac_bits as nat + 1));
    if exp >= shift_bias {
        let e: u64 = exp - shift_bias;
        if frac_bits + e >= 64 {
            proof {
                lemma_big_magnitude(m as nat, frac_bits as nat, e as nat);
            }
            return Truncated { nan, neg, mag: None };
        }
        proof {
            lemma_pow2_adds(frac_bits as nat + 1, e as nat);
            lemma_pow2_pos(e as nat);
            if frac_bits + 1 + e < 64 {
                vstd::arithmetic::power2::lemma_pow2_strictly_increases(
                    frac_bits as nat + 1 + e as nat,
                    64,
                );
            }
            let pm = pow2(frac_bits as nat + 1);
            let pe = pow2(e as nat);
            assert(m * pe <= 0xffff_ffff_ffff_ffff) by (nonlinear_arith)
                requires
                    m < pm,
                    pm * pe <= 0x1_0000_0000_0000_0000int,
                    pe > 0,
            ;
            lemma_u64_shl_is_mul(m, e);
        }
        return Truncated { nan, neg, mag: Some(m << e) };
    }
    let shift: u64 = shift_bias - exp;
    if shift >= 64 {
        proof {
            if shift > 64 {
                vstd::arithmetic::power2::lemma_pow2_strictly_increases(64, shift as nat);
            }
            vstd::arithmetic::div_mod::lemma_basic_div(m as int, pow2(shift as nat) as int);
        }
        return Truncated { nan, neg, mag: Some(0) };
    }
    proof {
        lemma_u64_shr_is_div(m, shift);
    }
    Truncated { nan, neg, mag: Some(m >> shift) }
}

/// Sign, NaN-ness and truncated magnitude of a double.
pub fn f64_truncate(bits: u64) -> (t: Truncated)
    ensures
        t.nan == f64_is_nan(bits),
        t.neg == f64_sign(bits),
        !f64_is_nan(bits) && !f64_is_inf(bits) ==> (t.mag matches Some(v) ==> v
            == trunc_magnitude(f64_exp(bits), f64_frac(bits), 52, 1075)),
        !f64_is_nan(bits) && !f64_is_inf(bits) ==> (t.mag is None ==> trunc_magnitude(
            f64_exp(bits),
            f64_frac(bits),
            52,
            1075,
        ) >= pow2(64)),
        f64_is_inf(bits) ==> t.mag is None,
{
    let exp = (bits >> 52u64) & 0x7ffu64;
    let frac = bits & 0xf_ffff_ffff_ffffu64;
    let neg = (bits >> 63u64) == 1;
    proof {
        lemma2_to64();
        vstd::arithmetic::power2::lemma2_to64_rest();
        assert(exp < 2048) by (bit_vector)
            requires exp == (bits >> 52u64) & 0x7ffu64;
        assert(frac < 0x10_0000_0000_0000u64) by (bit_vector)
            requires frac == bits & 0xf_ffff_ffff_ffffu64;
    }
    truncate_fields(exp == 0x7ff && frac != 0, exp == 0x7ff && frac == 0, neg, exp, frac, 52, 1075)
}

/// Sign, NaN-ness and truncated magnitude of a single.
pub fn f32_truncate(bits: u32) -> (t: Truncated)
    ensures
        t.nan == f32_is_nan(bits),
        t.neg == f32_sign(bits),
        !f32_is_nan(bits) && !f32_is_inf(bits) ==> (t.mag matches Some(v) ==> v
            == trunc_magnitude(f32_exp(bits), f32_frac(bits), 23, 150)),
        !f32_is_nan(bits) && !f32_is_inf(bits) ==> (t.mag is None ==> trunc_magnitude(
            f32_exp(bits),
            f32_frac(bits),
            23,
            150,
        ) >= pow2(64)),
        f32_is_inf(bits) ==> t.mag is None,
{
    let exp = (bits >> 23u32) & 0xffu32;
    let frac = bits & 0x7f_ffffu32;
    let neg = (bits >> 31u32) == 1;
    proof {
        lemma2_to64();
        vstd::arithmetic::power2::lemma2_to64_rest();
        assert(exp < 256) by (bit_vector)
            requires exp == (bits >> 23u32) & 0xffu32;
        assert(frac < 0x80_0000u32) by (bit_vector)
            requires frac == bits & 0x7f_ffffu32;
    }
    truncate_fields(
        exp == 0xff && frac != 0,
        exp == 0xff && frac == 0,
        neg,
        exp as u64,
        frac as u64,
        23,
        150,
    )
}

/// Saturating conversion of a truncated float into `[lo, hi]`, where
/// `lo <= 0 <= hi < 2^64` and `-lo <= 2^63`.
pub fn saturate(t: &Truncated, lo: i128, hi: i128) -> (r: i128)
    requires
        lo <= 0 <= hi,
        hi < 0x1_0000_0000_0000_0000i128,
        -lo <= 0x8000_0000_0000_0000i128,
    ensures
        t.nan ==> r == 0,
        !t.nan ==> (t.mag matches Some(v) ==> r == clamp(
            if t.neg { -(v as int) } else { v as int },
            lo as int,
            hi as int,
        )),
        !t.nan ==> (t.mag is None ==> r == (if t.neg { lo } else { hi })),
{
    if t.nan {
        0
    } else {
        match t.mag {
            Some(v) => {
                let x: i128 = if t.neg { -(v as i128) } else { v as i128 };
                if x < lo { lo } else if x > hi { hi } else { x }
            },
            None => if t.neg { lo } else { hi },
        }
    }
}


/// Zero of either sign.
pub open spec fn f64_is_zero(bits: u64) -> bool {
    f64_exp(bits) == 0 && f64_frac(bits) == 0
}

/// Zero of either sign.
pub open spec fn f32_is_zero(bits: u32) -> bool {
    f32_exp(bits) == 0 && f32_frac(bits) == 0
}

/// IEEE-754 equality of two doubles: no NaN is equal to anything, the two
/// zeros are equal, other values are equal when their bits are.
pub open spec fn f64_ieee_eq(a: u64, b: u64) -> bool {
    !f64_is_nan(a) && !f64_is_nan(b) && (a == b || (f64_is_zero(a) && f64_is_zero(b)))
}

/// IEEE-754 equality of two singles.
pub open spec fn f32_ieee_eq(a: u32, b: u32) -> bool {
    !f32_is_nan(a) && !f32_is_nan(b) && (a == b || (f32_is_zero(a) && f32_is_zero(b)))
}

/// NaN-ness, infiniteness, sign and zeroness of a double.
pub fn f64_class(bits: u64) -> (r: (bool, bool, bool, bool))
    ensures
        r == (f64_is_nan(bits), f64_is_inf(bits), f64_sign(bits), f64_is_zero(bits)),
{
    let exp = (bits >> 52u64) & 0x7ffu64;
    let frac = bits & 0xf_ffff_ffff_ffffu64;
    let neg = (bits >> 63u64) == 1;
    (exp == 0x7ff && frac != 0, exp == 0x7ff && frac == 0, neg, exp == 0 && frac == 0)
}

/// NaN-ness, infiniteness, sign and zeroness of a single.
pub fn f32_class(bits: u32) -> (r: (bool, bool, bool, bool))
    ensures
        r == (f32_is_nan(bits), f32_is_inf(bits), f32_sign(bits), f32_is_zero(bits)),
{
    let exp = (bits >> 23u32) & 0xffu32;
    let frac = bits & 0x7f_ffffu32;
    let neg = (bits >> 31u32) == 1;
    (exp == 0xff && frac != 0, exp == 0xff && frac == 0, neg, exp == 0 && frac == 0)
}

/// IEEE-754 equality of two doubles given by their bits.
pub fn f64_equal(a: u64, b: u64) -> (r: bool)
    ensures
        r == f64_ieee_eq(a, b),
{
    let (na, _, _, za) = f64_class(a);
    let (nb, _, _, zb) = f64_class(b);
    !na && !nb && (a == b || (za && zb))
}

/// IEEE-754 equality of two singles given by their bits.
pub fn f32_equal(a: u32, b: u32) -> (r: bool)
    ensures
        r == f32_ieee_eq(a, b),
{
    let (na, _, _, za) = f32_class(a);
    let (nb, _, _, zb) = f32_class(b);
    !na && !nb && (a == b || (za && zb))
}

/// Position of a double on the number line, as a signed magnitude: the two
/// zeros share position 0 and the order of positions is the IEEE-754 order
/// of non-NaN values.
pub open spec fn f64_position(bits: u64) -> int {
    let mag = (bits & 0x7fff_ffff_ffff_ffffu64) as int;
    if f64_sign(bits) {
        -mag
    } else {
        mag
    }
}

/// Position of a single on the number line.
pub open spec fn f32_position(bits: u32) -> int {
    let mag = (bits & 0x7fff_ffffu32) as int;
    if f32_sign(bits) {
        -mag
    } else {
        mag
    }
}

/// IEEE-754 `a < b` on doubles: false when either is NaN.
pub open spec fn f64_less(a: u64, b: u64) -> bool {
    !f64_is_nan(a) && !f64_is_nan(b) && f64_position(a) < f64_position(b)
}

/// IEEE-754 `a <= b` on doubles: false when either is NaN.
pub open spec fn f64_less_eq(a: u64, b: u64) -> bool {
    !f64_is_nan(a) && !f64_is_nan(b) && f64_position(a) <= f64_position(b)
}

/// IEEE-754 `a < b` on singles.
pub open spec fn f32_less(a: u32, b: u32) -> bool {
    !f32_is_nan(a) && !f32_is_nan(b) && f32_position(a) < f32_position(b)
}

/// IEEE-754 `a <= b` on singles.
pub open spec fn f32_less_eq(a: u32, b: u32) -> bool {
    !f32_is_nan(a) && !f32_is_nan(b) && f32_position(a) <= f32_position(b)
}

fn f64_pos(bits: u64) -> (r: i64)
    ensures
        r == f64_position(bits),
{
    let mag = bits & 0x7fff_ffff_ffff_ffffu64;
    assert(mag <= 0x7fff_ffff_ffff_ffffu64) by (bit_vector)
        requires
            mag == bits & 0x7fff_ffff_ffff_ffffu64,
    ;
    if (bits >> 63u64) == 1 {
        -(mag as i64)
    } else {
        mag as i64
    }
}

fn f32_pos(bits: u32) -> (r: i64)
    ensures
        r == f32_position(bits),
{
    let mag = bits & 0x7fff_ffffu32;
    if (bits >> 31u32) == 1 {
        -(mag as i64)
    } else {
        mag as i64
    }
}

/// IEEE-754 comparison of two doubles: `(a < b, a <= b)`.
pub fn f64_compare(a: u64, b: u64) -> (r: (bool, bool))
    ensures
        r == (f64_less(a, b), f64_less_eq(a, b)),
{
    let (na, _, _, _) = f64_class(a);
    let (nb, _, _, _) = f64_class(b);
    let pa = f64_pos(a);
    let pb = f64_pos(b);
    (!na && !nb && pa < pb, !na && !nb && pa <= pb)
}

/// IEEE-754 comparison of two singles: `(a < b, a <= b)`.
pub fn f32_compare(a: u32, b: u32) -> (r: (bool, bool))
    ensures
        r == (f32_less(a, b), f32_less_eq(a, b)),
{
    let (na, _, _, _) = f32_class(a);
    let (nb, _, _, _) = f32_class(b);
    let pa = f32_pos(a);
    let pb = f32_pos(b);
    (!na && !nb && pa < pb, !na && !nb && pa <= pb)
}

} // verus!
