//! Double-precision numbers as IEEE-754 bit patterns, computed with integers.
//!
//! A number is a `u64`: one sign bit, eleven exponent bits, fifty-two fraction
//! bits. Arithmetic rounds to nearest, ties to even. Every operation that has
//! no numeric result gives the quiet NaN [`QUIET_NAN`].

use vstd::prelude::*;
use vstd::arithmetic::power2::{
    lemma_pow2_adds, lemma_pow2_pos, lemma_pow2_strictly_increases, lemma_pow2_unfold, pow2,
};
use vstd::bits::{lemma_u64_shl_is_mul, lemma_u64_shr_is_div};
use vstd::std_specs::bits::{axiom_u64_leading_zeros, u64_leading_zeros};

verus! {

pub const SIGN_BIT: u64 = 0x8000_0000_0000_0000;

pub const MAGNITUDE: u64 = 0x7FFF_FFFF_FFFF_FFFF;

pub const INFINITY: u64 = 0x7FF0_0000_0000_0000;

pub const QUIET_NAN: u64 = 0x7FF8_0000_0000_0000;

pub const FRACTION: u64 = 0x000F_FFFF_FFFF_FFFF;

pub const HIDDEN_BIT: u64 = 0x0010_0000_0000_0000;

/// How two numbers compare.
#[derive(Debug, Clone, Copy, PartialEq, Eq, Structural)]
pub enum Order {
    Less,
    Equal,
    Greater,
}

pub open spec fn is_nan(x: u64) -> bool {
    (x & MAGNITUDE) > INFINITY
}

pub open spec fn is_infinite(x: u64) -> bool {
    (x & MAGNITUDE) == INFINITY
}

pub open spec fn is_zero(x: u64) -> bool {
    (x & MAGNITUDE) == 0
}

pub open spec fn is_negative(x: u64) -> bool {
    (x & SIGN_BIT) != 0
}

/// `x` with its sign flipped.
pub open spec fn negate(x: u64) -> u64 {
    x ^ SIGN_BIT
}

/// `x` without its sign.
pub open spec fn magnitude(x: u64) -> u64 {
    x & MAGNITUDE
}

/// Numeric equality: no NaN equals anything, and the two zeros are equal.
pub open spec fn equal(a: u64, b: u64) -> bool {
    !is_nan(a) && !is_nan(b) && (a == b || (is_zero(a) && is_zero(b)))
}

/// Numeric `a < b`: false when either is NaN.
pub open spec fn less(a: u64, b: u64) -> bool {
    !is_nan(a) && !is_nan(b) && !(is_zero(a) && is_zero(b)) && (if is_negative(a) != is_negative(
        b,
    ) {
        is_negative(a)
    } else if is_negative(a) {
        magnitude(a) > magnitude(b)
    } else {
        magnitude(a) < magnitude(b)
    })
}

/// The order of `a` and `b`, or `None` when either is NaN.
pub open spec fn compare(a: u64, b: u64) -> Option<Order> {
    if is_nan(a) || is_nan(b) {
        None
    } else if less(a, b) {
        Some(Order::Less)
    } else if less(b, a) {
        Some(Order::Greater)
    } else {
        Some(Order::Equal)
    }
}

/// The smaller of two numbers; a NaN argument is ignored.
pub open spec fn minimum(a: u64, b: u64) -> u64 {
    if is_nan(a) {
        b
    } else if is_nan(b) {
        a
    } else if less(b, a) {
        b
    } else {
        a
    }
}

/// The larger of two numbers; a NaN argument is ignored.
pub open spec fn maximum(a: u64, b: u64) -> u64 {
    if is_nan(a) {
        b
    } else if is_nan(b) {
        a
    } else if less(a, b) {
        b
    } else {
        a
    }
}

/// The exponent field of `x`, as stored.
pub open spec fn exponent_field(x: u64) -> u64 {
    (x >> 52) & 0x7FF
}

/// The integer significand of a finite `x`: its fraction, with the hidden bit
/// when `x` is normal.
pub open spec fn significand(x: u64) -> u64 {
    if exponent_field(x) == 0 {
        x & FRACTION
    } else {
        (x & FRACTION) | HIDDEN_BIT
    }
}

/// The scale `s` of a finite `x`: its value is `significand(x) * 2^(s - 1075)`.
pub open spec fn scale(x: u64) -> int {
    if exponent_field(x) == 0 {
        1
    } else {
        exponent_field(x) as int
    }
}

/// The number nearest to `sig * 2^exp` (plus a little, when `sticky`), with the
/// sign bit `sign`. `sig` has its top bit set.
pub open spec fn round_pack(sign: u64, exp: int, sig: u64, sticky: bool) -> u64 {
    let biased = exp + 1086;
    if biased >= 2047 {
        sign | INFINITY
    } else if biased >= 1 {
        let kept = sig >> 11;
        let round = (sig >> 10) & 1 == 1;
        let rest = (sig & 0x3FF) != 0 || sticky;
        let up = round && (rest || (kept & 1) == 1);
        let base = ((biased as u64) << 52) | (kept & FRACTION);
        sign | (if up {
            base.wrapping_add(1)
        } else {
            base
        })
    } else {
        let shift = 12 - biased;
        if shift > 64 {
            sign
        } else if shift == 64 {
            let rest = (sig & MAGNITUDE) != 0 || sticky;
            sign | (if rest {
                1u64
            } else {
                0u64
            })
        } else {
            let kept = sig >> (shift as u64);
            let round = (sig >> ((shift - 1) as u64)) & 1 == 1;
            let rest = (sig & (1u64 << ((shift - 1) as u64)).wrapping_sub(1)) != 0 || sticky;
            let up = round && (rest || (kept & 1) == 1);
            sign | (if up {
                kept.wrapping_add(1)
            } else {
                kept
            })
        }
    }
}

/// The number nearest to `s * 2^exp` (plus a little, when `sticky`), with the
/// sign bit `sign`.
pub open spec fn normalize_pack(sign: u64, s: u128, exp: int, sticky: bool) -> u64 {
    let hi = (s >> 64) as u64;
    let lo = (s & 0xFFFF_FFFF_FFFF_FFFF) as u64;
    if hi != 0 {
        let lz = u64_leading_zeros(hi);
        if lz == 0 {
            round_pack(sign, exp + 64, hi, sticky || lo != 0)
        } else {
            round_pack(
                sign,
                exp + 64 - lz,
                (hi << (lz as u64)) | (lo >> ((64 - lz) as u64)),
                sticky || (lo << (lz as u64)) != 0,
            )
        }
    } else if lo != 0 {
        let lz = u64_leading_zeros(lo);
        round_pack(sign, exp - lz, lo << (lz as u64), sticky)
    } else {
        sign
    }
}

/// The number nearest to the integer `x`.
pub open spec fn from_int(x: i64) -> u64 {
    if x == 0 {
        0
    } else if x == i64::MIN {
        normalize_pack(SIGN_BIT, 0x8000_0000_0000_0000u128, 0, false)
    } else if x < 0 {
        normalize_pack(SIGN_BIT, (-x) as u128, 0, false)
    } else {
        normalize_pack(0, x as u128, 0, false)
    }
}

/// The sum of two finite numbers that are not both zero.
pub open spec fn add_finite(a: u64, b: u64) -> u64 {
    let x = if magnitude(a) >= magnitude(b) {
        a
    } else {
        b
    };
    let y = if magnitude(a) >= magnitude(b) {
        b
    } else {
        a
    };
    let d = scale(x) - scale(y);
    let mx = (significand(x) as u128) << 64;
    let my_full = (significand(y) as u128) << 64;
    let my = if d < 0 || d >= 128 {
        0u128
    } else {
        my_full >> (d as u128)
    };
    let lost = if d < 0 || d >= 128 {
        true
    } else {
        (my_full & (1u128 << (d as u128)).wrapping_sub(1)) != 0
    };
    let s = if is_negative(x) == is_negative(y) {
        mx.wrapping_add(my)
    } else if lost {
        mx.wrapping_sub(my).wrapping_sub(1)
    } else {
        mx.wrapping_sub(my)
    };
    if s == 0 && !lost {
        0
    } else {
        normalize_pack(x & SIGN_BIT, s, scale(x) - 1139, lost)
    }
}

/// The sum `a + b`.
pub open spec fn add_model(a: u64, b: u64) -> u64 {
    if is_nan(a) || is_nan(b) {
        QUIET_NAN
    } else if is_infinite(a) {
        if is_infinite(b) && is_negative(a) != is_negative(b) {
            QUIET_NAN
        } else {
            a
        }
    } else if is_infinite(b) {
        b
    } else if is_zero(a) && is_zero(b) {
        a & b
    } else if is_zero(a) {
        b
    } else if is_zero(b) {
        a
    } else {
        add_finite(a, b)
    }
}

/// The difference `a - b`.
pub open spec fn sub_model(a: u64, b: u64) -> u64 {
    add_model(a, negate(b))
}

/// The product `a * b`.
pub open spec fn mul_model(a: u64, b: u64) -> u64 {
    let sign = (a ^ b) & SIGN_BIT;
    if is_nan(a) || is_nan(b) {
        QUIET_NAN
    } else if is_infinite(a) || is_infinite(b) {
        if is_zero(a) || is_zero(b) {
            QUIET_NAN
        } else {
            sign | INFINITY
        }
    } else if is_zero(a) || is_zero(b) {
        sign
    } else {
        normalize_pack(
            sign,
            (significand(a) as u128).wrapping_mul(significand(b) as u128),
            scale(a) + scale(b) - 2150,
            false,
        )
    }
}

/// The quotient of two finite numbers, neither of them zero.
pub open spec fn div_finite(a: u64, b: u64) -> u64 {
    let sign = (a ^ b) & SIGN_BIT;
    let ma = significand(a);
    let mb = significand(b);
    let lza = u64_leading_zeros(ma);
    let lzb = u64_leading_zeros(mb);
    if lza >= 64 || lzb >= 64 {
        QUIET_NAN
    } else {
        let top = ((ma << (lza as u64)) as u128) << 64;
        let bottom = (mb << (lzb as u64)) as u128;
        if bottom == 0 {
            QUIET_NAN
        } else {
            normalize_pack(
                sign,
                top / bottom,
                scale(a) - scale(b) - lza + lzb - 64,
                top % bottom != 0,
            )
        }
    }
}

/// The quotient `a / b`.
pub open spec fn div_model(a: u64, b: u64) -> u64 {
    let sign = (a ^ b) & SIGN_BIT;
    if is_nan(a) || is_nan(b) {
        QUIET_NAN
    } else if is_infinite(a) {
        if is_infinite(b) {
            QUIET_NAN
        } else {
            sign | INFINITY
        }
    } else if is_infinite(b) {
        sign
    } else if is_zero(b) {
        if is_zero(a) {
            QUIET_NAN
        } else {
            sign | INFINITY
        }
    } else if is_zero(a) {
        sign
    } else {
        div_finite(a, b)
    }
}

pub fn float_is_nan(x: u64) -> (r: bool)
    ensures
        r == is_nan(x),
{
    (x & MAGNITUDE) > INFINITY
}

pub fn float_is_zero(x: u64) -> (r: bool)
    ensures
        r == is_zero(x),
{
    (x & MAGNITUDE) == 0
}

pub fn float_is_infinite(x: u64) -> (r: bool)
    ensures
        r == is_infinite(x),
{
    (x & MAGNITUDE) == INFINITY
}

pub fn float_is_negative(x: u64) -> (r: bool)
    ensures
        r == is_negative(x),
{
    (x & SIGN_BIT) != 0
}

pub fn float_negate(x: u64) -> (r: u64)
    ensures
        r == negate(x),
{
    x ^ SIGN_BIT
}

pub fn float_magnitude(x: u64) -> (r: u64)
    ensures
        r == magnitude(x),
{
    x & MAGNITUDE
}

pub fn float_equal(a: u64, b: u64) -> (r: bool)
    ensures
        r == equal(a, b),
{
    !float_is_nan(a) && !float_is_nan(b) && (a == b || (float_is_zero(a) && float_is_zero(b)))
}

pub fn float_less(a: u64, b: u64) -> (r: bool)
    ensures
        r == less(a, b),
{
    if float_is_nan(a) || float_is_nan(b) || (float_is_zero(a) && float_is_zero(b)) {
        false
    } else if float_is_negative(a) != float_is_negative(b) {
        float_is_negative(a)
    } else if float_is_negative(a) {
        float_magnitude(a) > float_magnitude(b)
    } else {
        float_magnitude(a) < float_magnitude(b)
    }
}

pub fn float_compare(a: u64, b: u64) -> (r: Option<Order>)
    ensures
        r == compare(a, b),
{
    if float_is_nan(a) || float_is_nan(b) {
        None
    } else if float_less(a, b) {
        Some(Order::Less)
    } else if float_less(b, a) {
        Some(Order::Greater)
    } else {
        Some(Order::Equal)
    }
}

pub fn float_minimum(a: u64, b: u64) -> (r: u64)
    ensures
        r == minimum(a, b),
{
    if float_is_nan(a) {
        b
    } else if float_is_nan(b) {
        a
    } else if float_less(b, a) {
        b
    } else {
        a
    }
}

pub fn float_maximum(a: u64, b: u64) -> (r: u64)
    ensures
        r == maximum(a, b),
{
    if float_is_nan(a) {
        b
    } else if float_is_nan(b) {
        a
    } else if float_less(a, b) {
        b
    } else {
        a
    }
}

pub(crate) fn float_exponent_field(x: u64) -> (r: u64)
    ensures
        r == exponent_field(x),
        r <= 2047,
{
    assert((x >> 52) & 0x7FF <= 2047) by (bit_vector);
    (x >> 52) & 0x7FF
}

pub(crate) fn float_significand(x: u64) -> (r: u64)
    ensures
        r == significand(x),
        r < 0x20_0000_0000_0000,
{
    assert((x & FRACTION) < 0x20_0000_0000_0000 && ((x & FRACTION) | HIDDEN_BIT)
        < 0x20_0000_0000_0000) by (bit_vector);
    if float_exponent_field(x) == 0 {
        x & FRACTION
    } else {
        (x & FRACTION) | HIDDEN_BIT
    }
}

pub(crate) fn float_scale(x: u64) -> (r: i64)
    ensures
        r == scale(x),
        1 <= r <= 2047,
{
    let e = float_exponent_field(x);
    if e == 0 {
        1
    } else {
        e as i64
    }
}

fn float_round_pack(sign: u64, exp: i64, sig: u64, sticky: bool) -> (r: u64)
    requires
        -100000 <= exp <= 100000,
    ensures
        r == round_pack(sign, exp as int, sig, sticky),
{
    let biased: i64 = exp + 1086;
    if biased >= 2047 {
        sign | INFINITY
    } else if biased >= 1 {
        let kept = sig >> 11;
        let round = (sig >> 10) & 1 == 1;
        let rest = (sig & 0x3FF) != 0 || sticky;
        let up = round && (rest || (kept & 1) == 1);
        let base = ((biased as u64) << 52) | (kept & FRACTION);
        sign | (if up {
            base.wrapping_add(1)
        } else {
            base
        })
    } else {
        let shift: i64 = 12 - biased;
        if shift > 64 {
            sign
        } else if shift == 64 {
            let rest = (sig & MAGNITUDE) != 0 || sticky;
            sign | (if rest {
                1u64
            } else {
                0u64
            })
        } else {
            let kept = sig >> (shift as u64);
            let round = (sig >> ((shift - 1) as u64)) & 1 == 1;
            let rest = (sig & (1u64 << ((shift - 1) as u64)).wrapping_sub(1)) != 0 || sticky;
            let up = round && (rest || (kept & 1) == 1);
            sign | (if up {
                kept.wrapping_add(1)
            } else {
                kept
            })
        }
    }
}

fn float_normalize_pack(sign: u64, s: u128, exp: i64, sticky: bool) -> (r: u64)
    requires
        -50000 <= exp <= 50000,
    ensures
        r == normalize_pack(sign, s, exp as int, sticky),
{
    broadcast use axiom_u64_leading_zeros;

    let hi = (s >> 64) as u64;
    let lo = (s & 0xFFFF_FFFF_FFFF_FFFF) as u64;
    if hi != 0 {
        let lz = hi.leading_zeros();
        if lz == 0 {
            float_round_pack(sign, exp + 64, hi, sticky || lo != 0)
        } else {
            float_round_pack(
                sign,
                exp + 64 - (lz as i64),
                (hi << (lz as u64)) | (lo >> ((64 - lz) as u64)),
                sticky || (lo << (lz as u64)) != 0,
            )
        }
    } else if lo != 0 {
        let lz = lo.leading_zeros();
        float_round_pack(sign, exp - (lz as i64), lo << (lz as u64), sticky)
    } else {
        sign
    }
}

/// The number nearest to the integer `x`.
pub fn float_from_int(x: i64) -> (r: u64)
    ensures
        r == from_int(x),
{
    if x == 0 {
        0
    } else if x == i64::MIN {
        float_normalize_pack(SIGN_BIT, 0x8000_0000_0000_0000u128, 0, false)
    } else if x < 0 {
        float_normalize_pack(SIGN_BIT, (-x) as u128, 0, false)
    } else {
        float_normalize_pack(0, x as u128, 0, false)
    }
}

fn float_add_finite(a: u64, b: u64) -> (r: u64)
    ensures
        r == add_finite(a, b),
{
    let swap = float_magnitude(a) < float_magnitude(b);
    let x = if swap {
        b
    } else {
        a
    };
    let y = if swap {
        a
    } else {
        b
    };
    let sx = float_scale(x);
    let d: i64 = sx - float_scale(y);
    let mx = (float_significand(x) as u128) << 64;
    let my_full = (float_significand(y) as u128) << 64;
    let my = if d < 0 || d >= 128 {
        0u128
    } else {
        my_full >> (d as u128)
    };
    let lost = if d < 0 || d >= 128 {
        true
    } else {
        (my_full & (1u128 << (d as u128)).wrapping_sub(1)) != 0
    };
    let s = if float_is_negative(x) == float_is_negative(y) {
        mx.wrapping_add(my)
    } else if lost {
        mx.wrapping_sub(my).wrapping_sub(1)
    } else {
        mx.wrapping_sub(my)
    };
    if s == 0 && !lost {
        0
    } else {
        float_normalize_pack(x & SIGN_BIT, s, sx - 1139, lost)
    }
}

/// The sum `a + b`.
pub fn float_add(a: u64, b: u64) -> (r: u64)
    ensures
        r == add_model(a, b),
{
    if float_is_nan(a) || float_is_nan(b) {
        QUIET_NAN
    } else if float_is_infinite(a) {
        if float_is_infinite(b) && float_is_negative(a) != float_is_negative(b) {
            QUIET_NAN
        } else {
            a
        }
    } else if float_is_infinite(b) {
        b
    } else if float_is_zero(a) && float_is_zero(b) {
        a & b
    } else if float_is_zero(a) {
        b
    } else if float_is_zero(b) {
        a
    } else {
        float_add_finite(a, b)
    }
}

/// The difference `a - b`.
pub fn float_sub(a: u64, b: u64) -> (r: u64)
    ensures
        r == sub_model(a, b),
{
    float_add(a, float_negate(b))
}

/// The product `a * b`.
pub fn float_mul(a: u64, b: u64) -> (r: u64)
    ensures
        r == mul_model(a, b),
{
    let sign = (a ^ b) & SIGN_BIT;
    if float_is_nan(a) || float_is_nan(b) {
        QUIET_NAN
    } else if float_is_infinite(a) || float_is_infinite(b) {
        if float_is_zero(a) || float_is_zero(b) {
            QUIET_NAN
        } else {
            sign | INFINITY
        }
    } else if float_is_zero(a) || float_is_zero(b) {
        sign
    } else {
        float_normalize_pack(
            sign,
            (float_significand(a) as u128).wrapping_mul(float_significand(b) as u128),
            float_scale(a) + float_scale(b) - 2150,
            false,
        )
    }
}

fn float_div_finite(a: u64, b: u64) -> (r: u64)
    ensures
        r == div_finite(a, b),
{
    broadcast use axiom_u64_leading_zeros;

    let sign = (a ^ b) & SIGN_BIT;
    let ma = float_significand(a);
    let mb = float_significand(b);
    let lza = ma.leading_zeros();
    let lzb = mb.leading_zeros();
    if lza >= 64 || lzb >= 64 {
        QUIET_NAN
    } else {
        let top = ((ma << (lza as u64)) as u128) << 64;
        let bottom = (mb << (lzb as u64)) as u128;
        if bottom == 0 {
            QUIET_NAN
        } else {
            float_normalize_pack(
                sign,
                top / bottom,
                float_scale(a) - float_scale(b) - (lza as i64) + (lzb as i64) - 64,
                top % bottom != 0,
            )
        }
    }
}

/// The quotient `a / b`.
pub fn float_div(a: u64, b: u64) -> (r: u64)
    ensures
        r == div_model(a, b),
{
    let sign = (a ^ b) & SIGN_BIT;
    if float_is_nan(a) || float_is_nan(b) {
        QUIET_NAN
    } else if float_is_infinite(a) {
        if float_is_infinite(b) {
            QUIET_NAN
        } else {
            sign | INFINITY
        }
    } else if float_is_infinite(b) {
        sign
    } else if float_is_zero(b) {
        if float_is_zero(a) {
            QUIET_NAN
        } else {
            sign | INFINITY
        }
    } else if float_is_zero(a) {
        sign
    } else {
        float_div_finite(a, b)
    }
}

/// A number is its sign and its magnitude: two numbers with the same sign
/// and the same magnitude are the same, and so are their parts.
proof fn lemma_parts(a: u64, b: u64)
    ensures
        magnitude(a) == magnitude(b) && is_negative(a) == is_negative(b) ==> a == b,
        magnitude(a) == magnitude(b) ==> significand(a) == significand(b) && scale(a) == scale(b),
        a & b == b & a,
        (a ^ b) & SIGN_BIT == (b ^ a) & SIGN_BIT,
{
    assert((a & 0x7FFF_FFFF_FFFF_FFFF) == (b & 0x7FFF_FFFF_FFFF_FFFF) && ((a
        & 0x8000_0000_0000_0000) != 0) == ((b & 0x8000_0000_0000_0000) != 0) ==> a == b)
        by (bit_vector);
    assert((a & 0x7FFF_FFFF_FFFF_FFFF) == (b & 0x7FFF_FFFF_FFFF_FFFF) ==> (a
        & 0x000F_FFFF_FFFF_FFFF) == (b & 0x000F_FFFF_FFFF_FFFF) && ((a >> 52) & 0x7FF) == ((b >> 52)
        & 0x7FF)) by (bit_vector);
    assert(a & b == b & a) by (bit_vector);
    assert((a ^ b) & 0x8000_0000_0000_0000 == (b ^ a) & 0x8000_0000_0000_0000) by (bit_vector);
}

/// The order of numbers is strict: no number is below itself, of two numbers
/// at most one is below the other, and the order is transitive.
pub proof fn law_order_strict(a: u64, b: u64, c: u64)
    ensures
        !less(a, a),
        less(a, b) ==> !less(b, a),
        less(a, b) && less(b, c) ==> less(a, c),
{
}

/// Two numbers, neither of them NaN, are equal or one is below the other,
/// and only one of the three.
pub proof fn law_order_total(a: u64, b: u64)
    requires
        !is_nan(a),
        !is_nan(b),
    ensures
        equal(a, b) || less(a, b) || less(b, a),
        equal(a, b) ==> !less(a, b) && !less(b, a),
        equal(a, b) == equal(b, a),
{
    lemma_parts(a, b);
}

/// A sum does not depend on the order of its operands.
pub proof fn law_add_commutes(a: u64, b: u64)
    ensures
        add_model(a, b) == add_model(b, a),
{
    lemma_parts(a, b);
    lemma_parts(b, a);
    if !is_nan(a) && !is_nan(b) && !is_infinite(a) && !is_infinite(b) && !is_zero(a) && !is_zero(b)
        && magnitude(a) == magnitude(b) && is_negative(a) != is_negative(b) {
        let m = (significand(a) as u128) << 64;
        assert(significand(b) == significand(a) && scale(a) == scale(b));
        assert(m.wrapping_sub(m) == 0);
        assert((1u128 << 0u128) == 1) by (bit_vector);
        assert(1u128.wrapping_sub(1) == 0);
        assert((m & 0) == 0) by (bit_vector);
        assert((m >> 0u128) == m) by (bit_vector);
        assert(add_finite(a, b) == 0);
        assert(add_finite(b, a) == 0);
    }
}

/// A product does not depend on the order of its operands.
pub proof fn law_mul_commutes(a: u64, b: u64)
    ensures
        mul_model(a, b) == mul_model(b, a),
{
    lemma_parts(a, b);
    let x = significand(a) as u128;
    let y = significand(b) as u128;
    assert(x * y == y * x) by (nonlinear_arith);
}

/// The size of a number that is no NaN, in units of the smallest positive
/// number: its significand times two to the power of its scale less one.
/// Infinity counts as the power of two above every finite number.
pub open spec fn size(x: u64) -> int {
    significand(x) * pow2((scale(x) - 1) as nat)
}

/// What a number that is no NaN stands for, in units of the smallest
/// positive number: its size, taken negative for a negative number.
pub open spec fn meaning(x: u64) -> int {
    if is_negative(x) {
        -size(x)
    } else {
        size(x)
    }
}

/// The size grows with the stored exponent and, for the same exponent, with
/// the fraction.
proof fn lemma_size_grows(f1: int, r1: int, f2: int, r2: int)
    requires
        0 <= f1 <= f2 <= 2047,
        0 <= r1 < 0x10_0000_0000_0000,
        0 <= r2 < 0x10_0000_0000_0000,
        f1 < f2 || r1 < r2,
    ensures
        (if f1 == 0 {
            r1
        } else {
            (0x10_0000_0000_0000 + r1) * pow2((f1 - 1) as nat)
        }) < (if f2 == 0 {
            r2
        } else {
            (0x10_0000_0000_0000 + r2) * pow2((f2 - 1) as nat)
        }),
{
    let h = 0x10_0000_0000_0000int;
    if f2 > 0 {
        let step_high = pow2((f2 - 1) as nat) as int;
        lemma_pow2_pos((f2 - 1) as nat);
        if f1 == 0 {
            assert((h + r2) * step_high >= h + r2) by (nonlinear_arith)
                requires
                    step_high >= 1,
                    h + r2 >= 0,
            ;
        } else if f1 == f2 {
            assert((h + r1) * step_high < (h + r2) * step_high) by (nonlinear_arith)
                requires
                    step_high >= 1,
                    r1 < r2,
            ;
        } else {
            let step_low = pow2((f1 - 1) as nat) as int;
            lemma_pow2_pos((f1 - 1) as nat);
            lemma_pow2_unfold(f1 as nat);
            if f1 < f2 - 1 {
                lemma_pow2_strictly_increases(f1 as nat, (f2 - 1) as nat);
            }
            assert(2 * step_low <= step_high);
            assert((h + r1) * step_low < (h + r2) * step_high) by (nonlinear_arith)
                requires
                    step_low >= 1,
                    2 * step_low <= step_high,
                    0 <= r1 < h,
                    0 <= r2,
                    h > 0,
            ;
        }
    }
}

/// The magnitude of a number is its stored exponent and its fraction.
proof fn lemma_magnitude(x: u64)
    ensures
        magnitude(x) == exponent_field(x) * 0x10_0000_0000_0000 + (x & FRACTION),
        exponent_field(x) <= 2047,
        (x & FRACTION) < 0x10_0000_0000_0000,
        exponent_field(x) != 0 ==> significand(x) == 0x10_0000_0000_0000 + (x & FRACTION),
{
    assert((x & 0x7FFF_FFFF_FFFF_FFFF) == ((x >> 52) & 0x7FF) * 0x10_0000_0000_0000 + (x
        & 0x000F_FFFF_FFFF_FFFF)) by (bit_vector);
    assert(((x >> 52) & 0x7FF) <= 2047) by (bit_vector);
    assert((x & 0x000F_FFFF_FFFF_FFFF) < 0x10_0000_0000_0000) by (bit_vector);
    assert(((x & 0x000F_FFFF_FFFF_FFFF) | 0x0010_0000_0000_0000) == 0x10_0000_0000_0000 + (x
        & 0x000F_FFFF_FFFF_FFFF)) by (bit_vector);
}

/// The size of a number by its stored exponent and its fraction.
proof fn lemma_size(x: u64)
    ensures
        size(x) == (if exponent_field(x) == 0 {
            (x & FRACTION) as int
        } else {
            (0x10_0000_0000_0000 + (x & FRACTION)) * pow2((exponent_field(x) - 1) as nat)
        }),
{
    lemma_magnitude(x);
    vstd::arithmetic::power2::lemma2_to64();
    if exponent_field(x) == 0 {
        let r = (x & FRACTION) as int;
        let one = pow2(0) as int;
        assert(r * one == r) by (nonlinear_arith)
            requires
                one == 1,
        ;
    }
}

/// A greater magnitude is a greater size.
proof fn lemma_size_of_magnitude(a: u64, b: u64)
    ensures
        magnitude(a) < magnitude(b) ==> size(a) < size(b),
        magnitude(a) == magnitude(b) ==> size(a) == size(b),
        is_zero(a) <==> size(a) == 0,
{
    lemma_magnitude(a);
    lemma_magnitude(b);
    lemma_parts(a, b);
    lemma_pow2_pos(0);
    vstd::arithmetic::power2::lemma2_to64();
    let fa = exponent_field(a) as int;
    let fb = exponent_field(b) as int;
    let ra = (a & FRACTION) as int;
    let rb = (b & FRACTION) as int;
    lemma_size(a);
    lemma_size(b);
    if magnitude(a) < magnitude(b) {
        assert(fa <= fb) by (nonlinear_arith)
            requires
                fa * 0x10_0000_0000_0000 + ra < fb * 0x10_0000_0000_0000 + rb,
                0 <= ra < 0x10_0000_0000_0000,
                0 <= rb < 0x10_0000_0000_0000,
        ;
        lemma_size_grows(fa, ra, fb, rb);
    }
    if fa != 0 {
        lemma_pow2_pos((fa - 1) as nat);
        let p = pow2((fa - 1) as nat) as int;
        assert((0x10_0000_0000_0000 + ra) * p > 0) by (nonlinear_arith)
            requires
                p >= 1,
                ra >= 0,
        ;
    }
}

/// The order of numbers is the order of what they stand for: for two
/// numbers, neither of them NaN, one is below the other exactly where it
/// stands for less, and they are equal exactly where they stand for the same.
pub proof fn law_order_meaning(a: u64, b: u64)
    requires
        !is_nan(a),
        !is_nan(b),
    ensures
        less(a, b) <==> meaning(a) < meaning(b),
        equal(a, b) <==> meaning(a) == meaning(b),
{
    lemma_size_of_magnitude(a, b);
    lemma_size_of_magnitude(b, a);
    lemma_size_of_magnitude(a, a);
    lemma_size_of_magnitude(b, b);
    lemma_parts(a, b);
}

/// A whole number of fewer than fifty-four bits is packed exactly.
proof fn lemma_pack_exact(sign: u64, m: u64)
    requires
        0 < m < 0x20_0000_0000_0000,
        sign == 0 || sign == SIGN_BIT,
    ensures
        !is_nan(normalize_pack(sign, m as u128, 0, false)),
        !is_infinite(normalize_pack(sign, m as u128, 0, false)),
        !is_zero(normalize_pack(sign, m as u128, 0, false)),
        size(normalize_pack(sign, m as u128, 0, false)) == m * pow2(1074),
        is_negative(normalize_pack(sign, m as u128, 0, false)) == (sign != 0),
        normalize_pack(sign, m as u128, 0, false) & SIGN_BIT == sign,
        11 <= u64_leading_zeros(m) < 64,
        m < pow2((64 - u64_leading_zeros(m)) as nat),
        significand(normalize_pack(sign, m as u128, 0, false)) == m * pow2(
            (u64_leading_zeros(m) - 11) as nat,
        ),
        scale(normalize_pack(sign, m as u128, 0, false)) == 1086 - u64_leading_zeros(m),
{
    let r = normalize_pack(sign, m as u128, 0, false);
    assert((((m as u128) >> 64) as u64) == 0 && (((m as u128) & 0xFFFF_FFFF_FFFF_FFFF) as u64) == m)
        by (bit_vector);
    axiom_u64_leading_zeros(m);
    let lz = u64_leading_zeros(m);
    let k = lz as u64;
    assert(k < 64);
    assert(k >= 11) by (bit_vector)
        requires
            k < 64,
            m < 0x20_0000_0000_0000,
            (m >> ((63 - k) as u64)) & 1u64 != 0u64,
    ;
    let sig = m << k;
    let kept = sig >> 11;
    assert((sig >> 10) & 1 == 0 && (sig & 0x3FF) == 0 && kept == m << ((k - 11) as u64) && kept
        & 0xFFE0_0000_0000_0000 == 0 && kept & 0x0010_0000_0000_0000 != 0 && kept
        == 0x10_0000_0000_0000 + (kept & 0x000F_FFFF_FFFF_FFFF)) by (bit_vector)
        requires
            11 <= k < 64,
            sig == m << k,
            kept == sig >> 11,
            m >> ((64 - k) as u64) == 0,
            (m >> ((63 - k) as u64)) & 1u64 != 0u64,
    ;
    let biased = 1086 - lz;
    let b = biased as u64;
    assert(1023 <= b <= 1075);
    let base = (b << 52) | (kept & FRACTION);
    assert(round_pack(sign, -lz, sig, false) == sign | base);
    assert(r == sign | base);
    assert(((sign | ((b << 52) | (kept & 0x000F_FFFF_FFFF_FFFF))) >> 52) & 0x7FF == b && ((sign | ((b
        << 52) | (kept & 0x000F_FFFF_FFFF_FFFF))) & 0x000F_FFFF_FFFF_FFFF) == (kept
        & 0x000F_FFFF_FFFF_FFFF) && ((sign | ((b << 52) | (kept & 0x000F_FFFF_FFFF_FFFF)))
        & 0x7FFF_FFFF_FFFF_FFFF) < 0x7FF0_0000_0000_0000 && ((sign | ((b << 52) | (kept
        & 0x000F_FFFF_FFFF_FFFF))) & 0x7FFF_FFFF_FFFF_FFFF) != 0 && ((sign | ((b << 52) | (kept
        & 0x000F_FFFF_FFFF_FFFF))) & 0x8000_0000_0000_0000) == sign && (((sign | ((b << 52) | (kept
        & 0x000F_FFFF_FFFF_FFFF))) & 0x8000_0000_0000_0000) != 0) == (sign != 0)) by (bit_vector)
        requires
            1023 <= b <= 1075,
            sign == 0 || sign == 0x8000_0000_0000_0000,
    ;
    lemma_size(r);
    lemma_magnitude(r);
    assert(size(r) == kept * pow2((b - 1) as nat));
    lemma_u64_shr_is_div(m, ((64 - k) as u64));
    lemma_pow2_pos((64 - k) as nat);
    assert(m < pow2((64 - k) as nat)) by {
        let d = pow2((64 - k) as nat) as int;
        assert(m as int / d == 0);
        assert(m < d) by (nonlinear_arith)
            requires
                m as int / d == 0,
                d > 0,
                m >= 0,
        ;
    }
    lemma_pow2_adds((64 - k) as nat, (k - 11) as nat);
    lemma_pow2_pos((k - 11) as nat);
    vstd::arithmetic::power2::lemma2_to64();
    assert(pow2(53) == 0x20_0000_0000_0000) by {
        lemma_pow2_adds(32, 21);
    }
    assert(m * pow2((k - 11) as nat) <= u64::MAX) by {
        let p = pow2((k - 11) as nat) as int;
        let q = pow2((64 - k) as nat) as int;
        assert(m * p < q * p) by (nonlinear_arith)
            requires
                m < q,
                p > 0,
                m >= 0,
        ;
    }
    lemma_u64_shl_is_mul(m, ((k - 11) as u64));
    assert(kept == m * pow2((k - 11) as nat));
    lemma_pow2_adds((k - 11) as nat, (b - 1) as nat);
    assert(m * pow2((k - 11) as nat) * pow2((b - 1) as nat) == m * pow2(1074)) by {
        let p = pow2((k - 11) as nat) as int;
        let q = pow2((b - 1) as nat) as int;
        assert(m * p * q == m * (p * q)) by (nonlinear_arith);
    }
}

/// A whole number of fewer than fifty-four bits converts exactly: the Float
/// made of it stands for that number.
pub proof fn law_from_int_exact(x: i64)
    requires
        -0x20_0000_0000_0000 < x < 0x20_0000_0000_0000,
    ensures
        !is_nan(from_int(x)),
        meaning(from_int(x)) == x * pow2(1074),
{
    if x == 0 {
        lemma_size(0);
        assert((0u64 >> 52) & 0x7FF == 0 && 0u64 & 0x000F_FFFF_FFFF_FFFF == 0 && 0u64
            & 0x7FFF_FFFF_FFFF_FFFF == 0 && 0u64 & 0x8000_0000_0000_0000 == 0) by (bit_vector);
    } else if x < 0 {
        lemma_pack_exact(SIGN_BIT, (-x) as u64);
        let p = pow2(1074) as int;
        assert(-((-x) * p) == x * p) by (nonlinear_arith);
    } else {
        lemma_pack_exact(0, x as u64);
    }
}

/// Flipping the sign negates what a number stands for, and dropping the sign
/// gives its size.
pub proof fn law_sign(x: u64)
    requires
        !is_nan(x),
    ensures
        !is_nan(negate(x)),
        meaning(negate(x)) == -meaning(x),
        meaning(magnitude(x)) == size(x),
{
    assert(((x ^ 0x8000_0000_0000_0000) & 0x7FFF_FFFF_FFFF_FFFF) == (x & 0x7FFF_FFFF_FFFF_FFFF)
        && (((x ^ 0x8000_0000_0000_0000) & 0x8000_0000_0000_0000) != 0) == ((x
        & 0x8000_0000_0000_0000) == 0) && ((x & 0x7FFF_FFFF_FFFF_FFFF) & 0x7FFF_FFFF_FFFF_FFFF) == (x
        & 0x7FFF_FFFF_FFFF_FFFF) && ((x & 0x7FFF_FFFF_FFFF_FFFF) & 0x8000_0000_0000_0000) == 0)
        by (bit_vector);
    lemma_size_of_magnitude(negate(x), x);
    lemma_size_of_magnitude(magnitude(x), x);
}

/// Packing does not depend on how far a whole number of fewer than
/// fifty-four bits is shifted to the left, as long as the exponent makes up
/// for the shift and no bit is lost.
proof fn lemma_pack_shifted(sign: u64, n: u64, t: u64)
    requires
        0 < n < 0x20_0000_0000_0000,
        t <= 64 + u64_leading_zeros(n),
    ensures
        normalize_pack(sign, (n as u128) << (t as u128), -(t as int), false) == normalize_pack(
            sign,
            n as u128,
            0,
            false,
        ),
{
    if t > 64 {
        lemma_pack_shifted_far(sign, n, t);
    } else {
        lemma_pack_shifted_near(sign, n, t);
    }
}

/// The case of [`lemma_pack_shifted`] in which the shift is at most
/// sixty-four bits.
#[verifier::rlimit(100)]
proof fn lemma_pack_shifted_near(sign: u64, n: u64, t: u64)
    requires
        0 < n < 0x20_0000_0000_0000,
        t <= 64,
    ensures
        normalize_pack(sign, (n as u128) << (t as u128), -(t as int), false) == normalize_pack(
            sign,
            n as u128,
            0,
            false,
        ),
{
    let s = (n as u128) << (t as u128);
    let hi = (s >> 64) as u64;
    let lo = (s & 0xFFFF_FFFF_FFFF_FFFF) as u64;
    axiom_u64_leading_zeros(n);
    axiom_u64_leading_zeros(hi);
    axiom_u64_leading_zeros(lo);
    let kn = u64_leading_zeros(n) as u64;
    assert((((n as u128) >> 64) as u64) == 0 && (((n as u128) & 0xFFFF_FFFF_FFFF_FFFF) as u64) == n)
        by (bit_vector);
    assert(11 <= kn < 64) by (bit_vector)
        requires
            kn <= 64,
            0 < n < 0x20_0000_0000_0000,
            (kn < 64 ==> (n >> ((63 - kn) as u64)) & 1u64 != 0u64),
            kn == 64 ==> n == 0,
    ;
    assert(hi == (if t == 0 {
        0u64
    } else {
        n >> ((64 - t) as u64)
    }) && lo == (if t == 64 {
        0u64
    } else {
        n << t
    })) by (bit_vector)
        requires
            t <= 64,
            s == (n as u128) << (t as u128),
            hi == (s >> 64) as u64,
            lo == (s & 0xFFFF_FFFF_FFFF_FFFF) as u64,
    ;
    let target = n << kn;
    if hi != 0 {
        let lz = u64_leading_zeros(hi) as u64;
        assert(lz + t == 64 + kn) by (bit_vector)
            requires
                11 <= kn < 64,
                0 < t <= 64,
                lz < 64,
                hi == n >> ((64 - t) as u64),
                (n >> ((63 - kn) as u64)) & 1u64 != 0u64,
                n >> ((64 - kn) as u64) == 0,
                (hi >> ((63 - lz) as u64)) & 1u64 != 0u64,
                hi >> ((64 - lz) as u64) == 0,
        ;
        assert(if lz == 0 {
            hi == target && lo == 0
        } else {
            ((hi << lz) | (lo >> ((64 - lz) as u64))) == target && (lo << lz) == 0
        }) by (bit_vector)
            requires
                11 <= kn < 64,
                0 < t <= 64,
                lz < 64,
                lz + t == 64 + kn,
                hi == n >> ((64 - t) as u64),
                lo == (if t == 64 {
                    0u64
                } else {
                    n << t
                }),
                target == n << kn,
                n >> ((64 - kn) as u64) == 0,
        ;
    } else {
        let lz = u64_leading_zeros(lo) as u64;
        assert(t < 64 && lo != 0) by (bit_vector)
            requires
                11 <= kn < 64,
                t <= 64,
                hi == (if t == 0 {
                    0u64
                } else {
                    n >> ((64 - t) as u64)
                }),
                hi == 0,
                lo == (if t == 64 {
                    0u64
                } else {
                    n << t
                }),
                (n >> ((63 - kn) as u64)) & 1u64 != 0u64,
        ;
        assert(lz + t == kn) by (bit_vector)
            requires
                11 <= kn < 64,
                t < 64,
                lz < 64,
                hi == (if t == 0 {
                    0u64
                } else {
                    n >> ((64 - t) as u64)
                }),
                hi == 0,
                lo == n << t,
                (n >> ((63 - kn) as u64)) & 1u64 != 0u64,
                n >> ((64 - kn) as u64) == 0,
                (lo >> ((63 - lz) as u64)) & 1u64 != 0u64,
                lo >> ((64 - lz) as u64) == 0,
        ;
        assert((lo << lz) == target) by (bit_vector)
            requires
                t < 64,
                lz < 64,
                kn < 64,
                lz + t == kn,
                lo == n << t,
                target == n << kn,
        ;
    }
}

/// The case of [`lemma_pack_shifted`] in which the shift is more than
/// sixty-four bits.
#[verifier::rlimit(100)]
proof fn lemma_pack_shifted_far(sign: u64, n: u64, t: u64)
    requires
        0 < n < 0x20_0000_0000_0000,
        64 < t <= 64 + u64_leading_zeros(n),
    ensures
        normalize_pack(sign, (n as u128) << (t as u128), -(t as int), false) == normalize_pack(
            sign,
            n as u128,
            0,
            false,
        ),
{
    let s = (n as u128) << (t as u128);
    let hi = (s >> 64) as u64;
    let lo = (s & 0xFFFF_FFFF_FFFF_FFFF) as u64;
    let u = (t - 64) as u64;
    axiom_u64_leading_zeros(n);
    axiom_u64_leading_zeros(hi);
    let kn = u64_leading_zeros(n) as u64;
    assert((((n as u128) >> 64) as u64) == 0 && (((n as u128) & 0xFFFF_FFFF_FFFF_FFFF) as u64) == n)
        by (bit_vector);
    assert(11 <= kn < 64) by (bit_vector)
        requires
            kn <= 64,
            0 < n < 0x20_0000_0000_0000,
            (kn < 64 ==> (n >> ((63 - kn) as u64)) & 1u64 != 0u64),
            kn == 64 ==> n == 0,
    ;
    assert(hi == n << u && lo == 0) by (bit_vector)
        requires
            64 < t < 128,
            u == (t - 64) as u64,
            s == (n as u128) << (t as u128),
            hi == (s >> 64) as u64,
            lo == (s & 0xFFFF_FFFF_FFFF_FFFF) as u64,
    ;
    let target = n << kn;
    assert(hi != 0) by (bit_vector)
        requires
            kn < 64,
            u <= kn,
            hi == n << u,
            (n >> ((63 - kn) as u64)) & 1u64 != 0u64,
    ;
    let lz = u64_leading_zeros(hi) as u64;
    assert(lz + u == kn) by (bit_vector)
        requires
            11 <= kn < 64,
            u <= kn,
            lz < 64,
            hi == n << u,
            (n >> ((63 - kn) as u64)) & 1u64 != 0u64,
            n >> ((64 - kn) as u64) == 0,
            (hi >> ((63 - lz) as u64)) & 1u64 != 0u64,
            hi >> ((64 - lz) as u64) == 0,
    ;
    assert(if lz == 0 {
        hi == target
    } else {
        ((hi << lz) | (0u64 >> ((64 - lz) as u64))) == target && (0u64 << lz) == 0
    }) by (bit_vector)
        requires
            kn < 64,
            lz < 64,
            u < 64,
            lz + u == kn,
            hi == n << u,
            target == n << kn,
    ;
}

/// Shifting to the left multiplies by a power of two, where nothing is lost.
proof fn lemma_shift_is_product(x: u128, t: nat)
    requires
        t < 128,
        x * pow2(t) <= u128::MAX,
    ensures
        x << (t as u128) == x * pow2(t),
    decreases t,
{
    vstd::arithmetic::power2::lemma2_to64();
    if t == 0 {
        assert(x << 0u128 == x) by (bit_vector);
        let one = pow2(0) as int;
        assert(x * one == x) by (nonlinear_arith)
            requires
                one == 1,
        ;
    } else {
        let before = (t - 1) as nat;
        lemma_pow2_unfold(t);
        lemma_pow2_pos(before);
        let p = pow2(before) as int;
        assert(x * p <= x * (2 * p)) by (nonlinear_arith)
            requires
                p >= 1,
                x >= 0,
        ;
        lemma_shift_is_product(x, before);
        let y = x << (before as u128);
        let tt = t as u128;
        assert(x * (2 * p) == (x * p) * 2) by (nonlinear_arith);
        assert(x << tt == y * 2) by (bit_vector)
            requires
                0 < tt < 128,
                y == x << ((tt - 1) as u128),
                y * 2 <= 0xFFFF_FFFF_FFFF_FFFF_FFFF_FFFF_FFFF_FFFFu128,
        ;
    }
}

/// A number below two to the `j` has at least `64 - j` leading zeros.
proof fn lemma_leading_zeros(n: u64, j: nat)
    requires
        0 < n < pow2(j),
        j <= 64,
    ensures
        u64_leading_zeros(n) >= 64 - j,
{
    axiom_u64_leading_zeros(n);
    let k = u64_leading_zeros(n) as u64;
    if k < 64 - j {
        let shift = (63 - k) as u64;
        let v = n >> shift;
        assert(v >= 1) by (bit_vector)
            requires
                v & 1u64 != 0u64,
        ;
        lemma_u64_shr_is_div(n, shift);
        lemma_pow2_pos(shift as nat);
        let d = pow2(shift as nat) as int;
        assert(n >= d) by (nonlinear_arith)
            requires
                n as int / d >= 1,
                d > 0,
        ;
        if shift as nat > j {
            lemma_pow2_strictly_increases(j, shift as nat);
        }
    }
}

/// The product of two whole numbers is exact where it has fewer than
/// fifty-four bits: the product of the Floats made of the factors is the
/// Float made of the product.
pub proof fn law_mul_exact(x: i64, y: i64)
    requires
        x != 0,
        y != 0,
        -0x20_0000_0000_0000 < x < 0x20_0000_0000_0000,
        -0x20_0000_0000_0000 < y < 0x20_0000_0000_0000,
        -0x20_0000_0000_0000 < x * y < 0x20_0000_0000_0000,
    ensures
        mul_model(from_int(x), from_int(y)) == from_int((x * y) as i64),
{
    let mx: u64 = if x < 0 {
        (-x) as u64
    } else {
        x as u64
    };
    let my: u64 = if y < 0 {
        (-y) as u64
    } else {
        y as u64
    };
    let sx: u64 = if x < 0 {
        SIGN_BIT
    } else {
        0
    };
    let sy: u64 = if y < 0 {
        SIGN_BIT
    } else {
        0
    };
    let z = (x * y) as i64;
    assert(mx * my == (if z < 0 {
        -z
    } else {
        z as int
    })) by (nonlinear_arith)
        requires
            z == x * y,
            mx == (if x < 0 {
                -x
            } else {
                x as int
            }),
            my == (if y < 0 {
                -y
            } else {
                y as int
            }),
    ;
    assert(z != 0) by (nonlinear_arith)
        requires
            z == x * y,
            x != 0,
            y != 0,
    ;
    let n: u64 = (mx * my) as u64;
    let sz: u64 = if z < 0 {
        SIGN_BIT
    } else {
        0
    };
    assert((z < 0) == ((x < 0) != (y < 0))) by (nonlinear_arith)
        requires
            z == x * y,
            x != 0,
            y != 0,
    ;
    let a = from_int(x);
    let b = from_int(y);
    assert(a == normalize_pack(sx, mx as u128, 0, false));
    assert(b == normalize_pack(sy, my as u128, 0, false));
    assert(from_int(z) == normalize_pack(sz, n as u128, 0, false));
    lemma_pack_exact(sx, mx);
    lemma_pack_exact(sy, my);
    let kx = u64_leading_zeros(mx);
    let ky = u64_leading_zeros(my);
    let t = (kx + ky - 22) as nat;
    let sign = (a ^ b) & SIGN_BIT;
    assert(sign == sz) by (bit_vector)
        requires
            sign == (a ^ b) & 0x8000_0000_0000_0000,
            a & 0x8000_0000_0000_0000 == sx,
            b & 0x8000_0000_0000_0000 == sy,
            sx == 0 || sx == 0x8000_0000_0000_0000,
            sy == 0 || sy == 0x8000_0000_0000_0000,
            sz == (if sx == sy {
                0u64
            } else {
                0x8000_0000_0000_0000u64
            }),
    ;
    let px = pow2((kx - 11) as nat) as int;
    let py = pow2((ky - 11) as nat) as int;
    lemma_pow2_adds((kx - 11) as nat, (ky - 11) as nat);
    let ga = significand(a) as int;
    let gb = significand(b) as int;
    lemma_magnitude(a);
    lemma_magnitude(b);
    assert(ga * gb == n * pow2(t)) by (nonlinear_arith)
        requires
            ga == mx * px,
            gb == my * py,
            n == mx * my,
            pow2(t) == px * py,
    ;
    assert(ga * gb < 0x400_0000_0000_0000_0000_0000_0000) by (nonlinear_arith)
        requires
            0 <= ga < 0x20_0000_0000_0000,
            0 <= gb < 0x20_0000_0000_0000,
    ;
    let product = (significand(a) as u128).wrapping_mul(significand(b) as u128);
    assert(product == ga * gb);
    lemma_shift_is_product(n as u128, t);
    assert(product == (n as u128) << (t as u128));
    vstd::arithmetic::power2::lemma2_to64();
    lemma_pow2_adds(32, 21);
    lemma_pow2_adds(53, 53);
    assert(pow2(53) == 0x20_0000_0000_0000);
    assert(pow2(106) == 0x400_0000_0000_0000_0000_0000_0000) by {
        assert(0x20_0000_0000_0000int * 0x20_0000_0000_0000int
            == 0x400_0000_0000_0000_0000_0000_0000int) by (nonlinear_arith);
    }
    if t >= 42 {
        lemma_pow2_adds((106 - t) as nat, t);
        lemma_pow2_pos(t);
        let pt = pow2(t) as int;
        let pj = pow2((106 - t) as nat) as int;
        assert(pj * pt == pow2(106));
        assert(n * pt == ga * gb);
        assert(n < pj) by (nonlinear_arith)
            requires
                n * pt < pj * pt,
                pt > 0,
        ;
        lemma_leading_zeros(n, (106 - t) as nat);
    }
    lemma_pack_shifted(sz, n, t as u64);
}

/// A number with `k` leading zeros lies between two to the `63 - k` and two
/// to the `64 - k`.
proof fn lemma_bit_length(m: u64)
    requires
        m > 0,
    ensures
        u64_leading_zeros(m) < 64,
        pow2((63 - u64_leading_zeros(m)) as nat) <= m < pow2((64 - u64_leading_zeros(m)) as nat),
{
    axiom_u64_leading_zeros(m);
    let k = u64_leading_zeros(m) as u64;
    let low = (63 - k) as u64;
    let v = m >> low;
    assert(v >= 1) by (bit_vector)
        requires
            v & 1u64 != 0u64,
    ;
    lemma_u64_shr_is_div(m, low);
    lemma_pow2_pos(low as nat);
    let d = pow2(low as nat) as int;
    assert(m >= d) by (nonlinear_arith)
        requires
            m as int / d >= 1,
            d > 0,
    ;
    vstd::arithmetic::power2::lemma2_to64();
    if k == 0 {
        assert(m < pow2(64));
    } else {
        let high = (64 - k) as u64;
        lemma_u64_shr_is_div(m, high);
        lemma_pow2_pos(high as nat);
        let e = pow2(high as nat) as int;
        assert(m < e) by (nonlinear_arith)
            requires
                m as int / e == 0,
                e > 0,
                m >= 0,
        ;
    }
}

/// A greater number has no more leading zeros.
proof fn lemma_zeros_ordered(m: u64, n: u64)
    requires
        0 < n <= m,
    ensures
        u64_leading_zeros(m) <= u64_leading_zeros(n),
{
    lemma_bit_length(m);
    lemma_bit_length(n);
    let km = u64_leading_zeros(m);
    let kn = u64_leading_zeros(n);
    if km > kn {
        if 64 - km < 63 - kn {
            lemma_pow2_strictly_increases((64 - km) as nat, (63 - kn) as nat);
        }
    }
}

/// The sum of two finite Floats made of whole numbers, the first of them
/// the greater in size.
proof fn lemma_add_ordered(x: i64, y: i64)
    requires
        x != 0,
        y != 0,
        x + y != 0,
        -0x20_0000_0000_0000 < x < 0x20_0000_0000_0000,
        -0x20_0000_0000_0000 < y < 0x20_0000_0000_0000,
        -0x20_0000_0000_0000 < x + y < 0x20_0000_0000_0000,
        (if x < 0 {
            -x
        } else {
            x as int
        }) >= (if y < 0 {
            -y
        } else {
            y as int
        }),
    ensures
        add_model(from_int(x), from_int(y)) == from_int((x + y) as i64),
{
    let mx: u64 = if x < 0 {
        (-x) as u64
    } else {
        x as u64
    };
    let my: u64 = if y < 0 {
        (-y) as u64
    } else {
        y as u64
    };
    let sx: u64 = if x < 0 {
        SIGN_BIT
    } else {
        0
    };
    let sy: u64 = if y < 0 {
        SIGN_BIT
    } else {
        0
    };
    let z = (x + y) as i64;
    let n: u64 = if z < 0 {
        (-z) as u64
    } else {
        z as u64
    };
    let a = from_int(x);
    let b = from_int(y);
    assert(a == normalize_pack(sx, mx as u128, 0, false));
    assert(b == normalize_pack(sy, my as u128, 0, false));
    assert((z < 0) == (x < 0));
    assert(from_int(z) == normalize_pack(sx, n as u128, 0, false));
    lemma_pack_exact(sx, mx);
    lemma_pack_exact(sy, my);
    lemma_zeros_ordered(mx, my);
    lemma_bit_length(mx);
    lemma_bit_length(my);
    let kx = u64_leading_zeros(mx);
    let ky = u64_leading_zeros(my);
    let d = ky - kx;
    assert(0 <= d <= 52);
    lemma_size_of_magnitude(a, b);
    lemma_size_of_magnitude(b, a);
    lemma_pow2_pos(1074);
    let unit = pow2(1074) as int;
    assert(size(a) >= size(b)) by (nonlinear_arith)
        requires
            size(a) == mx * unit,
            size(b) == my * unit,
            mx >= my,
            unit > 0,
    ;
    assert(magnitude(a) >= magnitude(b));
    let ga = significand(a);
    let gb = significand(b);
    lemma_magnitude(a);
    lemma_magnitude(b);
    let top = (ga as u128) << 64;
    let full = (gb as u128) << 64;
    let dd = d as u128;
    let low = full >> dd;
    assert((full & (1u128 << dd).wrapping_sub(1)) == 0 && low == (gb as u128) << ((64 - dd) as u128))
        by (bit_vector)
        requires
            dd <= 52,
            full == (gb as u128) << 64,
            low == full >> dd,
            gb < 0x20_0000_0000_0000,
    ;
    vstd::arithmetic::power2::lemma2_to64();
    lemma_pow2_adds(32, 21);
    lemma_pow2_adds(32, 32);
    lemma_pow2_adds(53, 64);
    let px = pow2((kx - 11) as nat) as int;
    let py = pow2((ky - 11) as nat) as int;
    let shift = (kx + 53) as nat;
    lemma_pow2_adds((kx - 11) as nat, 64);
    lemma_pow2_adds((ky - 11) as nat, (64 - d) as nat);
    lemma_pow2_pos(shift);
    let ps = pow2(shift) as int;
    assert(pow2(117) == 0x20_0000_0000_0000 * 0x1_0000_0000_0000_0000);
    if shift < 117 {
        lemma_pow2_strictly_increases(shift, 117);
    }
    assert(ga * pow2(64) == mx * ps) by (nonlinear_arith)
        requires
            ga == mx * px,
            ps == px * pow2(64),
    ;
    assert(gb * pow2((64 - d) as nat) == my * ps) by (nonlinear_arith)
        requires
            gb == my * py,
            ps == py * pow2((64 - d) as nat),
    ;
    assert(mx * ps < 0x20_0000_0000_0000 * pow2(117) && my * ps <= mx * ps) by (nonlinear_arith)
        requires
            0 < my <= mx < 0x20_0000_0000_0000,
            0 < ps <= pow2(117),
    ;
    lemma_shift_is_product(ga as u128, 64);
    lemma_shift_is_product(gb as u128, (64 - d) as nat);
    assert(top == mx * ps);
    assert(low == my * ps);
    let total = if sx == sy {
        top.wrapping_add(low)
    } else {
        top.wrapping_sub(low)
    };
    assert(n == (if sx == sy {
        mx + my
    } else {
        mx - my
    }));
    assert(total == n * ps) by (nonlinear_arith)
        requires
            total == (if sx == sy {
                mx * ps + my * ps
            } else {
                mx * ps - my * ps
            }),
            n == (if sx == sy {
                mx + my
            } else {
                mx - my
            }),
    ;
    assert(total != 0) by (nonlinear_arith)
        requires
            total == n * ps,
            n > 0,
            ps > 0,
    ;
    lemma_shift_is_product(n as u128, shift);
    assert(total == (n as u128) << (shift as u128));
    assert(n < pow2((65 - kx) as nat)) by {
        lemma_pow2_unfold((65 - kx) as nat);
    }
    lemma_leading_zeros(n, (65 - kx) as nat);
    lemma_pack_shifted(sx, n, shift as u64);
    assert(a & SIGN_BIT == sx);
    assert(add_finite(a, b) == normalize_pack(sx, total, -(shift as int), false));
}

/// Two numbers of one size and one sign are the same number.
proof fn lemma_same_number(a: u64, b: u64)
    requires
        size(a) == size(b),
        a & SIGN_BIT == b & SIGN_BIT,
    ensures
        a == b,
{
    lemma_size_of_magnitude(a, b);
    lemma_size_of_magnitude(b, a);
    assert(a == b) by (bit_vector)
        requires
            a & 0x7FFF_FFFF_FFFF_FFFF == b & 0x7FFF_FFFF_FFFF_FFFF,
            a & 0x8000_0000_0000_0000 == b & 0x8000_0000_0000_0000,
    ;
}

/// The Float made of the opposite of a whole number is the opposite of the
/// Float made of the number.
pub proof fn law_negate_exact(y: i64)
    requires
        y != 0,
        -0x20_0000_0000_0000 < y < 0x20_0000_0000_0000,
    ensures
        negate(from_int(y)) == from_int((-y) as i64),
{
    let m: u64 = if y < 0 {
        (-y) as u64
    } else {
        y as u64
    };
    let b = from_int(y);
    lemma_pack_exact(0, m);
    lemma_pack_exact(SIGN_BIT, m);
    assert((b ^ 0x8000_0000_0000_0000) & 0x7FFF_FFFF_FFFF_FFFF == b & 0x7FFF_FFFF_FFFF_FFFF && ((b
        ^ 0x8000_0000_0000_0000) & 0x8000_0000_0000_0000 == 0 <==> b & 0x8000_0000_0000_0000
        == 0x8000_0000_0000_0000) && ((b ^ 0x8000_0000_0000_0000) & 0x8000_0000_0000_0000
        == 0x8000_0000_0000_0000 <==> b & 0x8000_0000_0000_0000 == 0)) by (bit_vector);
    lemma_size_of_magnitude(negate(b), b);
    lemma_same_number(negate(b), from_int((-y) as i64));
}

/// The sum of two whole numbers is exact where it has fewer than fifty-four
/// bits: the sum of the Floats made of the terms is the Float made of the
/// sum.
pub proof fn law_add_exact(x: i64, y: i64)
    requires
        -0x20_0000_0000_0000 < x < 0x20_0000_0000_0000,
        -0x20_0000_0000_0000 < y < 0x20_0000_0000_0000,
        -0x20_0000_0000_0000 < x + y < 0x20_0000_0000_0000,
    ensures
        add_model(from_int(x), from_int(y)) == from_int((x + y) as i64),
{
    let a = from_int(x);
    let b = from_int(y);
    let mx: u64 = if x < 0 {
        (-x) as u64
    } else {
        x as u64
    };
    let my: u64 = if y < 0 {
        (-y) as u64
    } else {
        y as u64
    };
    if x != 0 {
        lemma_pack_exact(0, mx);
        lemma_pack_exact(SIGN_BIT, mx);
    }
    if y != 0 {
        lemma_pack_exact(0, my);
        lemma_pack_exact(SIGN_BIT, my);
    }
    lemma_parts(a, b);
    if x == 0 || y == 0 {
        assert(0u64 & 0u64 == 0 && 0u64 & 0x7FFF_FFFF_FFFF_FFFF == 0) by (bit_vector);
        assert(is_zero(0));
        assert(x == 0 ==> add_model(a, b) == b);
        assert(y == 0 ==> add_model(a, b) == a);
    } else if x + y == 0 {
        lemma_size_of_magnitude(a, magnitude(a));
        lemma_size_of_magnitude(b, magnitude(b));
        lemma_idempotent(a);
        lemma_idempotent(b);
        lemma_same_number(magnitude(a), magnitude(b));
        law_add_commutes(a, b);
        let m = (significand(a) as u128) << 64;
        assert(significand(b) == significand(a) && scale(a) == scale(b));
        assert(m.wrapping_sub(m) == 0);
        assert((1u128 << 0u128) == 1 && (m & 0) == 0 && (m >> 0u128) == m) by (bit_vector);
        assert(1u128.wrapping_sub(1) == 0);
        assert(add_finite(a, b) == 0);
        assert(add_model(a, b) == 0);
    } else if mx >= my {
        lemma_add_ordered(x, y);
    } else {
        lemma_add_ordered(y, x);
        law_add_commutes(a, b);
    }
}

/// The difference of two whole numbers is exact where it has fewer than
/// fifty-four bits.
pub proof fn law_sub_exact(x: i64, y: i64)
    requires
        -0x20_0000_0000_0000 < x < 0x20_0000_0000_0000,
        -0x20_0000_0000_0000 < y < 0x20_0000_0000_0000,
        -0x20_0000_0000_0000 < x - y < 0x20_0000_0000_0000,
    ensures
        sub_model(from_int(x), from_int(y)) == from_int((x - y) as i64),
{
    if y == 0 {
        let a = from_int(x);
        lemma_parts(a, SIGN_BIT);
        assert(0u64 ^ 0x8000_0000_0000_0000 == 0x8000_0000_0000_0000 && 0u64
            & 0x8000_0000_0000_0000 == 0 && 0x8000_0000_0000_0000u64 & 0x7FFF_FFFF_FFFF_FFFF == 0
            && 0u64 & 0x7FFF_FFFF_FFFF_FFFF == 0) by (bit_vector);
        assert(negate(0) == SIGN_BIT);
        assert(is_zero(SIGN_BIT) && is_zero(0));
        if x != 0 {
            lemma_pack_exact(0, if x < 0 {
                (-x) as u64
            } else {
                x as u64
            });
            lemma_pack_exact(SIGN_BIT, if x < 0 {
                (-x) as u64
            } else {
                x as u64
            });
        }
    } else {
        law_negate_exact(y);
        law_add_exact(x, (-y) as i64);
    }
}

/// The magnitude of a magnitude is itself, and it has no sign.
proof fn lemma_idempotent(a: u64)
    ensures
        magnitude(magnitude(a)) == magnitude(a),
        magnitude(a) & SIGN_BIT == 0,
{
    assert((a & 0x7FFF_FFFF_FFFF_FFFF) & 0x7FFF_FFFF_FFFF_FFFF == a & 0x7FFF_FFFF_FFFF_FFFF && (a
        & 0x7FFF_FFFF_FFFF_FFFF) & 0x8000_0000_0000_0000 == 0) by (bit_vector);
}

/// The quotient of two whole numbers is exact where the dividend is a
/// multiple of the divisor and has fewer than fifty-four bits.
pub proof fn law_div_exact(x: i64, y: i64)
    requires
        x != 0,
        y != 0,
        -0x20_0000_0000_0000 < x < 0x20_0000_0000_0000,
        -0x20_0000_0000_0000 < y < 0x20_0000_0000_0000,
        -0x20_0000_0000_0000 < x * y < 0x20_0000_0000_0000,
    ensures
        div_model(from_int((x * y) as i64), from_int(y)) == from_int(x),
{
    let mx: u64 = if x < 0 {
        (-x) as u64
    } else {
        x as u64
    };
    let my: u64 = if y < 0 {
        (-y) as u64
    } else {
        y as u64
    };
    let sx: u64 = if x < 0 {
        SIGN_BIT
    } else {
        0
    };
    let sy: u64 = if y < 0 {
        SIGN_BIT
    } else {
        0
    };
    let z = (x * y) as i64;
    assert(z != 0 && (z < 0) == ((x < 0) != (y < 0))) by (nonlinear_arith)
        requires
            z == x * y,
            x != 0,
            y != 0,
    ;
    let mz: u64 = if z < 0 {
        (-z) as u64
    } else {
        z as u64
    };
    let sz: u64 = if z < 0 {
        SIGN_BIT
    } else {
        0
    };
    assert(mz == mx * my) by (nonlinear_arith)
        requires
            z == x * y,
            mz == (if z < 0 {
                -z
            } else {
                z as int
            }),
            mx == (if x < 0 {
                -x
            } else {
                x as int
            }),
            my == (if y < 0 {
                -y
            } else {
                y as int
            }),
    ;
    let a = from_int(z);
    let b = from_int(y);
    assert(a == normalize_pack(sz, mz as u128, 0, false));
    assert(b == normalize_pack(sy, my as u128, 0, false));
    assert(from_int(x) == normalize_pack(sx, mx as u128, 0, false));
    lemma_pack_exact(sz, mz);
    lemma_pack_exact(sy, my);
    lemma_bit_length(mz);
    lemma_bit_length(my);
    lemma_bit_length(mx);
    let ka = u64_leading_zeros(mz);
    let kb = u64_leading_zeros(my);
    let kx = u64_leading_zeros(mx);
    let ga = significand(a);
    let gb = significand(b);
    let sign = (a ^ b) & SIGN_BIT;
    assert(sign == sx) by (bit_vector)
        requires
            sign == (a ^ b) & 0x8000_0000_0000_0000,
            a & 0x8000_0000_0000_0000 == sz,
            b & 0x8000_0000_0000_0000 == sy,
            sx == (if sz == sy {
                0u64
            } else {
                0x8000_0000_0000_0000u64
            }),
    ;
    vstd::arithmetic::power2::lemma2_to64();
    lemma_pow2_adds(32, 20);
    lemma_pow2_adds(32, 21);
    lemma_pow2_adds(32, 32);
    lemma_pow2_adds((63 - ka) as nat, (ka - 11) as nat);
    lemma_pow2_adds((64 - ka) as nat, (ka - 11) as nat);
    lemma_pow2_adds((63 - kb) as nat, (kb - 11) as nat);
    lemma_pow2_adds((64 - kb) as nat, (kb - 11) as nat);
    let pa = pow2((ka - 11) as nat) as int;
    let pb = pow2((kb - 11) as nat) as int;
    lemma_pow2_pos((ka - 11) as nat);
    lemma_pow2_pos((kb - 11) as nat);
    assert(0x10_0000_0000_0000 <= ga < 0x20_0000_0000_0000) by (nonlinear_arith)
        requires
            ga == mz * pa,
            pow2((63 - ka) as nat) <= mz < pow2((64 - ka) as nat),
            pow2((63 - ka) as nat) * pa == 0x10_0000_0000_0000,
            pow2((64 - ka) as nat) * pa == 0x20_0000_0000_0000,
            pa > 0,
    ;
    assert(0x10_0000_0000_0000 <= gb < 0x20_0000_0000_0000) by (nonlinear_arith)
        requires
            gb == my * pb,
            pow2((63 - kb) as nat) <= my < pow2((64 - kb) as nat),
            pow2((63 - kb) as nat) * pb == 0x10_0000_0000_0000,
            pow2((64 - kb) as nat) * pb == 0x20_0000_0000_0000,
            pb > 0,
    ;
    lemma_bit_length(ga);
    lemma_bit_length(gb);
    lemma_leading_zeros(ga, 53);
    lemma_leading_zeros(gb, 53);
    let lza = u64_leading_zeros(ga);
    let lzb = u64_leading_zeros(gb);
    assert(lza == 11) by {
        if lza > 11 {
            lemma_pow2_strictly_increases((64 - lza) as nat, 53);
            if 64 - lza < 52 {
                lemma_pow2_strictly_increases((64 - lza) as nat, 52);
            }
        }
    }
    assert(lzb == 11) by {
        if lzb > 11 {
            lemma_pow2_strictly_increases((64 - lzb) as nat, 53);
            if 64 - lzb < 52 {
                lemma_pow2_strictly_increases((64 - lzb) as nat, 52);
            }
        }
    }
    lemma_u64_shl_is_mul(ga, 11);
    lemma_u64_shl_is_mul(gb, 11);
    let wide_a = ga << 11u64;
    let wide_b = gb << 11u64;
    assert(wide_a == ga * 2048 && wide_b == gb * 2048);
    lemma_pow2_adds(11, (ka - 11) as nat);
    lemma_pow2_adds(11, (kb - 11) as nat);
    lemma_pow2_adds(ka as nat, 64);
    lemma_pow2_pos(ka as nat);
    lemma_pow2_pos(kb as nat);
    let qa = pow2(ka as nat) as int;
    let qb = pow2(kb as nat) as int;
    assert(wide_a == mz * qa) by (nonlinear_arith)
        requires
            wide_a == ga * 2048,
            ga == mz * pa,
            qa == 2048 * pa,
    ;
    assert(wide_b == my * qb) by (nonlinear_arith)
        requires
            wide_b == gb * 2048,
            gb == my * pb,
            qb == 2048 * pb,
    ;
    let top = (wide_a as u128) << 64;
    let bottom = wide_b as u128;
    lemma_shift_is_product(wide_a as u128, 64);
    assert(top == wide_a * pow2(64));
    let shift = (ka + 64 - kb) as nat;
    lemma_pow2_adds(kb as nat, shift);
    lemma_pow2_pos(shift);
    let ps = pow2(shift) as int;
    let quotient = mx * ps;
    assert(top == bottom * quotient) by (nonlinear_arith)
        requires
            top == wide_a * pow2(64),
            wide_a == mz * qa,
            mz == mx * my,
            bottom == my * qb,
            quotient == mx * ps,
            qa * pow2(64) == qb * ps,
    ;
    assert(bottom > 0);
    assert(top as int == quotient * (bottom as int) + 0) by (nonlinear_arith)
        requires
            top == bottom * quotient,
    ;
    vstd::arithmetic::div_mod::lemma_fundamental_div_mod_converse(
        top as int,
        bottom as int,
        quotient,
        0,
    );
    assert(quotient <= top) by (nonlinear_arith)
        requires
            top == bottom * quotient,
            bottom >= 1,
            quotient >= 0,
    ;
    lemma_shift_is_product(mx as u128, shift);
    assert(top / bottom == (mx as u128) << (shift as u128));
    assert(top % bottom == 0);
    assert(shift <= 64 + kx) by {
        if ka - kb > kx {
            lemma_pow2_adds((63 - kx) as nat, (63 - kb) as nat);
            lemma_pow2_strictly_increases((64 - ka) as nat, (126 - kx - kb) as nat);
            assert(mx * my >= pow2((63 - kx) as nat) * pow2((63 - kb) as nat)) by (nonlinear_arith)
                requires
                    mx >= pow2((63 - kx) as nat),
                    my >= pow2((63 - kb) as nat),
            ;
        }
    }
    lemma_pack_shifted(sx, mx, shift as u64);
    assert(scale(a) - scale(b) - lza + lzb - 64 == -(shift as int));
    assert(div_finite(a, b) == normalize_pack(sx, (mx as u128) << (shift as u128), -(shift as int), false));
}

/// The parts of the Float made of a whole number `n` of fewer than
/// fifty-four bits: it is finite, not zero and has the sign of `n`; its
/// magnitude is the Float made of the size of `n`; the exponent field lies
/// between 1023 and 1075, and the significand, shifted to the right by 1075
/// less the field, is the size of `n`.
pub proof fn law_whole_parts(n: i64)
    requires
        n != 0,
        -0x20_0000_0000_0000 < n < 0x20_0000_0000_0000,
    ensures
        !is_nan(from_int(n)),
        !is_infinite(from_int(n)),
        !is_zero(from_int(n)),
        significand(from_int(n)) != 0,
        is_negative(from_int(n)) == (n < 0),
        magnitude(from_int(n)) == from_int(
            if n < 0 {
                (-n) as i64
            } else {
                n
            },
        ),
        1023 <= exponent_field(magnitude(from_int(n))) <= 1075,
        significand(magnitude(from_int(n))) >> ((1075 - exponent_field(
            magnitude(from_int(n)),
        )) as u64) == (if n < 0 {
            -n
        } else {
            n as int
        }),
{
    let m: u64 = if n < 0 {
        (-n) as u64
    } else {
        n as u64
    };
    let sign: u64 = if n < 0 {
        SIGN_BIT
    } else {
        0
    };
    let a = from_int(n);
    let b = from_int(m as i64);
    assert(a == normalize_pack(sign, m as u128, 0, false));
    assert(b == normalize_pack(0, m as u128, 0, false));
    lemma_pack_exact(sign, m);
    lemma_pack_exact(0, m);
    lemma_idempotent(a);
    lemma_size_of_magnitude(magnitude(a), a);
    lemma_same_number(magnitude(a), b);
    let lz = u64_leading_zeros(m);
    let field = exponent_field(b);
    assert(field == 1086 - lz);
    let s = (lz - 11) as u64;
    let g = significand(b);
    let p = pow2(s as nat) as int;
    lemma_pow2_pos(s as nat);
    lemma_u64_shr_is_div(g, s);
    assert(g as int / p == m) by (nonlinear_arith)
        requires
            g == m * p,
            p > 0,
    ;
    assert(significand(a) > 0) by (nonlinear_arith)
        requires
            significand(a) == m * p,
            m > 0,
            p > 0,
    ;
}

/// A number and its magnitude differ in the sign alone: the magnitude is
/// not negative, has the same exponent field, significand and scale, and is
/// NaN, infinite or zero where the number is; and a negative number is the
/// opposite of its magnitude. The significand has fewer than fifty-four
/// bits and is zero only in a zero; the scale lies between 1 and 2047.
pub proof fn law_magnitude_parts(x: u64)
    ensures
        !is_negative(magnitude(x)),
        magnitude(magnitude(x)) == magnitude(x),
        exponent_field(magnitude(x)) == exponent_field(x),
        significand(magnitude(x)) == significand(x),
        scale(magnitude(x)) == scale(x),
        is_nan(magnitude(x)) == is_nan(x),
        is_infinite(magnitude(x)) == is_infinite(x),
        is_zero(magnitude(x)) == is_zero(x),
        is_negative(x) ==> negate(magnitude(x)) == x,
        !is_negative(x) ==> magnitude(x) == x,
        is_zero(x) ==> magnitude(x) == 0,
        !is_zero(x) ==> significand(x) != 0,
        significand(x) < 0x20_0000_0000_0000,
        1 <= scale(x) <= 2047,
{
    let m = x & 0x7FFF_FFFF_FFFF_FFFF;
    lemma_magnitude(x);
    assert((m & 0x8000_0000_0000_0000) == 0 && (m & 0x7FFF_FFFF_FFFF_FFFF) == m && ((m >> 52)
        & 0x7FF) == ((x >> 52) & 0x7FF) && (m & 0x000F_FFFF_FFFF_FFFF) == (x
        & 0x000F_FFFF_FFFF_FFFF) && ((x & 0x8000_0000_0000_0000) != 0 ==> (m
        ^ 0x8000_0000_0000_0000) == x) && ((x & 0x8000_0000_0000_0000) == 0 ==> m == x))
        by (bit_vector)
        requires
            m == x & 0x7FFF_FFFF_FFFF_FFFF,
    ;
}

/// The two zeros: neither is NaN or infinite, the opposite of zero is the
/// negative zero, and the two are equal as numbers.
pub proof fn law_zeros()
    ensures
        is_zero(0) && !is_negative(0) && !is_nan(0) && !is_infinite(0),
        is_zero(negate(0)) && is_negative(negate(0)) && !is_nan(negate(0)) && !is_infinite(
            negate(0),
        ),
        magnitude(0) == 0 && magnitude(negate(0)) == 0,
        equal(negate(0), 0),
        from_int(0) == 0,
{
    assert(0u64 & 0x7FFF_FFFF_FFFF_FFFF == 0 && 0u64 & 0x8000_0000_0000_0000 == 0 && (0u64
        ^ 0x8000_0000_0000_0000) & 0x7FFF_FFFF_FFFF_FFFF == 0 && (0u64 ^ 0x8000_0000_0000_0000)
        & 0x8000_0000_0000_0000 != 0) by (bit_vector);
}

} // verus!
