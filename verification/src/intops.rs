//! Integer division and remainder as Rust defines them on signed integers
//! (truncating towards zero), and sign flips of float bit patterns.
use vstd::prelude::*;

verus! {

/// Absolute value.
pub open spec fn abs_int(a: int) -> int {
    if a < 0 {
        -a
    } else {
        a
    }
}

/// Quotient rounded towards zero.
pub open spec fn trunc_div(a: int, b: int) -> int {
    let q = abs_int(a) / abs_int(b);
    if (a < 0) == (b < 0) {
        q
    } else {
        -q
    }
}

/// Remainder of the quotient rounded towards zero (sign of the dividend).
pub open spec fn trunc_rem(a: int, b: int) -> int {
    a - b * trunc_div(a, b)
}

/// Magnitude of an `i64` as a `u64`.
fn magnitude64(a: i64) -> (r: u64)
    ensures
        r == abs_int(a as int),
{
    if a >= 0 {
        a as u64
    } else if a == i64::MIN {
        0x8000_0000_0000_0000u64
    } else {
        (-a) as u64
    }
}

/// `a / b` on `i64`.
pub fn div_i64(a: i64, b: i64) -> (r: i64)
    requires
        b != 0,
        !(a == i64::MIN && b == -1),
    ensures
        r == trunc_div(a as int, b as int),
{
    let ua = magnitude64(a);
    let ub = magnitude64(b);
    let q = ua / ub;
    assert(q <= ua) by (nonlinear_arith)
        requires
            ub >= 1,
            q == ua / ub,
    ;
    if (a < 0) == (b < 0) {
        if a == i64::MIN && ub == 1 {
            assert(false);
        }
        assert(q <= 0x7fff_ffff_ffff_ffff) by (nonlinear_arith)
            requires
                q == ua / ub,
                ub >= 1,
                ua <= 0x8000_0000_0000_0000,
                ua == 0x8000_0000_0000_0000 ==> ub >= 2,
        ;
        q as i64
    } else {
        assert(q <= 0x8000_0000_0000_0000);
        if q == 0x8000_0000_0000_0000u64 {
            i64::MIN
        } else {
            -(q as i64)
        }
    }
}

/// `a % b` on `i64`.
pub fn rem_i64(a: i64, b: i64) -> (r: i64)
    requires
        b != 0,
        !(a == i64::MIN && b == -1),
    ensures
        r == trunc_rem(a as int, b as int),
{
    let q = div_i64(a, b);
    let ua = magnitude64(a);
    let ub = magnitude64(b);
    let m = ua % ub;
    assert(ua == ub * (ua / ub) + m) by (nonlinear_arith)
        requires
            ub >= 1,
            m == ua % ub,
    ;
    assert(m < ub) by (nonlinear_arith)
        requires
            ub >= 1,
            m == ua % ub,
    ;
    let ghost t = trunc_div(a as int, b as int);
    assert(a - b * t == (if a < 0 { -(m as int) } else { m as int })) by (nonlinear_arith)
        requires
            ua == abs_int(a as int),
            ub == abs_int(b as int),
            ua == ub * (ua / ub) + m,
            t == (if (a < 0) == (b < 0) { ua as int / ub as int } else { -(ua as int / ub as int) }),
    ;
    if a < 0 {
        -(m as i64)
    } else {
        m as i64
    }
}

/// `a / b` on `i32`.
pub fn div_i32(a: i32, b: i32) -> (r: i32)
    requires
        b != 0,
        !(a == i32::MIN && b == -1),
    ensures
        r == trunc_div(a as int, b as int),
{
    let q = div_i64(a as i64, b as i64);
    assert(-0x8000_0000 <= q <= 0x7fff_ffff) by (nonlinear_arith)
        requires
            q == trunc_div(a as int, b as int),
            b != 0,
            -0x8000_0000 <= a <= 0x7fff_ffff,
            -0x8000_0000 <= b <= 0x7fff_ffff,
            !(a == -0x8000_0000 && b == -1),
    {
        let ua: int = abs_int(a as int);
        let ub: int = abs_int(b as int);
        assert(ua / ub <= ua) by (nonlinear_arith)
            requires
                ub >= 1,
                ua >= 0,
        ;
        assert(ua / ub >= 0) by (nonlinear_arith)
            requires
                ub >= 1,
                ua >= 0,
        ;
        if ua == 0x8000_0000 && ub == 1 {
            assert(a == -0x8000_0000);
        }
    }
    q as i32
}

/// `a % b` on `i32`.
pub fn rem_i32(a: i32, b: i32) -> (r: i32)
    requires
        b != 0,
        !(a == i32::MIN && b == -1),
    ensures
        r == trunc_rem(a as int, b as int),
{
    let r = rem_i64(a as i64, b as i64);
    let ghost t = trunc_div(a as int, b as int);
    assert(-0x8000_0000 <= r <= 0x7fff_ffff) by (nonlinear_arith)
        requires
            r == a - b * t,
            t == trunc_div(a as int, b as int),
            b != 0,
            -0x8000_0000 <= a <= 0x7fff_ffff,
            -0x8000_0000 <= b <= 0x7fff_ffff,
    {
        let ua: int = abs_int(a as int);
        let ub: int = abs_int(b as int);
        assert(ua % ub < ub && ua == ub * (ua / ub) + ua % ub && ua % ub >= 0) by (nonlinear_arith)
            requires
                ub >= 1,
                ua >= 0,
        ;
        assert(a - b * t == (if a < 0 { -(ua % ub) } else { ua % ub })) by (nonlinear_arith)
            requires
                ua == abs_int(a as int),
                ub == abs_int(b as int),
                ua == ub * (ua / ub) + ua % ub,
                t == (if (a < 0) == (b < 0) { ua as int / ub as int } else { -(ua as int / ub as int) }),
        ;
    }
    r as i32
}

/// The bits of a double with its sign flipped (`-x`).
pub open spec fn f64_negated(bits: u64) -> u64 {
    bits ^ 0x8000_0000_0000_0000u64
}

/// The bits of a single with its sign flipped (`-x`).
pub open spec fn f32_negated(bits: u32) -> u32 {
    bits ^ 0x8000_0000u32
}

} // verus!
