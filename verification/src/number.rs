//! Number literals: decimal text to an Int or to the nearest Float.
//!
//! A Float literal is read exactly: its decimal digits are halved or doubled
//! as a whole until the integer part has fifty-three bits, and what is left
//! behind the point decides the rounding, ties to even.

use vstd::prelude::*;
use crate::float::{
    exponent_field, float_exponent_field, float_from_int, float_is_infinite, float_is_nan,
    float_is_negative, float_is_zero, float_magnitude, float_scale, float_significand, from_int,
    is_infinite, is_nan, is_negative, is_zero, magnitude, scale, significand, FRACTION,
    HIDDEN_BIT, INFINITY,
};
use crate::text::{append_chars, chars_of, decimal_text, digit_char, push_decimal};
use crate::token::{char_is_digit, is_digit, scan_digits};

verus! {

/// The value of the digit character `c`.
pub open spec fn digit_value(c: char) -> nat {
    ((c as u32) - 48) as nat
}

/// The number that the first `n` characters of `s` write in decimal.
pub open spec fn decimal_value(s: Seq<char>, n: int) -> nat
    decreases n,
{
    if n <= 0 || n > s.len() {
        0
    } else {
        decimal_value(s, n - 1) * 10 + digit_value(s[n - 1])
    }
}

/// Whether `s` consists of decimal digits, at least one.
pub open spec fn all_digits(s: Seq<char>) -> bool {
    s.len() > 0 && forall|i: int| 0 <= i < s.len() ==> is_digit(#[trigger] s[i])
}

/// The Int that the digits `s` write, if it fits.
pub open spec fn int_literal(s: Seq<char>) -> Option<i64> {
    if all_digits(s) && decimal_value(s, s.len() as int) <= i64::MAX {
        Some(decimal_value(s, s.len() as int) as i64)
    } else {
        None
    }
}

/// The value of a longer prefix is no smaller.
proof fn lemma_decimal_grows(s: Seq<char>, i: int, j: int)
    requires
        0 <= i <= j <= s.len(),
    ensures
        decimal_value(s, i) <= decimal_value(s, j),
    decreases j - i,
{
    if i < j {
        lemma_decimal_grows(s, i, j - 1);
        assert(decimal_value(s, j - 1) * 10 >= decimal_value(s, j - 1)) by (nonlinear_arith);
    }
}

/// Reads an Int literal.
pub fn parse_int(chars: &Vec<char>) -> (r: Option<i64>)
    ensures
        r == int_literal(chars@),
{
    if chars.len() == 0 {
        return None;
    }
    let mut acc: u64 = 0;
    let mut i: usize = 0;
    while i < chars.len()
        invariant
            i <= chars.len(),
            acc == decimal_value(chars@, i as int),
            acc <= i64::MAX,
            forall|k: int| 0 <= k < i ==> is_digit(#[trigger] chars@[k]),
        decreases chars.len() - i,
    {
        let c = chars[i];
        if !char_is_digit(c) {
            return None;
        }
        let d: u64 = (c as u32 - 48) as u64;
        if acc > (0x7FFF_FFFF_FFFF_FFFFu64 - d) / 10 {
            proof {
                lemma_decimal_grows(chars@, i + 1, chars@.len() as int);
                if all_digits(chars@) {
                    assert(decimal_value(chars@, i + 1) > i64::MAX);
                }
            }
            return None;
        }
        acc = acc * 10 + d;
        i += 1;
    }
    Some(acc as i64)
}

/// Whether the digits `s` write two to the sixty-third: the one number
/// that is an Int only with a minus sign before it.
pub open spec fn least_magnitude(s: Seq<char>) -> bool {
    all_digits(s) && decimal_value(s, s.len() as int) == 0x8000_0000_0000_0000
}

/// Whether `chars` write two to the sixty-third.
pub fn is_least_magnitude(chars: &Vec<char>) -> (r: bool)
    ensures
        r == least_magnitude(chars@),
{
    if chars.len() == 0 {
        return false;
    }
    let mut acc: u64 = 0;
    let mut i: usize = 0;
    while i < chars.len()
        invariant
            i <= chars.len(),
            acc == decimal_value(chars@, i as int),
            acc <= 0x8000_0000_0000_0000,
            forall|k: int| 0 <= k < i ==> is_digit(#[trigger] chars@[k]),
        decreases chars.len() - i,
    {
        let c = chars[i];
        if !char_is_digit(c) {
            return false;
        }
        let d: u64 = (c as u32 - 48) as u64;
        if acc > (0x8000_0000_0000_0000u64 - d) / 10 {
            proof {
                lemma_decimal_grows(chars@, i + 1, chars@.len() as int);
                if all_digits(chars@) {
                    assert(decimal_value(chars@, i + 1) > 0x8000_0000_0000_0000);
                }
            }
            return false;
        }
        acc = acc * 10 + d;
        i += 1;
    }
    acc == 0x8000_0000_0000_0000u64
}

/// A decimal number: the digits, most significant first, and how many of
/// them stand before the point.
pub ghost struct Decimal {
    pub digits: Seq<u8>,
    pub point: int,
}

/// The digits of `d` from position `i` down to the first, each doubled, with
/// `carry` coming in from the right; and the carry that leaves on the left.
pub open spec fn double_step(d: Seq<u8>, i: int, carry: int) -> (Seq<u8>, int)
    decreases i,
{
    if i <= 0 || i > d.len() {
        (d, carry)
    } else {
        let v = (d[i - 1] as int) * 2 + carry;
        double_step(d.update(i - 1, (v % 10) as u8), i - 1, v / 10)
    }
}

/// The digits of `d` from position `i` on, each halved, with the remainder
/// `rem` coming in from the left; and the remainder that leaves on the right.
pub open spec fn halve_step(d: Seq<u8>, i: int, rem: int) -> (Seq<u8>, int)
    decreases d.len() - i,
{
    if i < 0 || i >= d.len() {
        (d, rem)
    } else {
        let cur = (rem % 2) * 10 + (d[i] as int);
        halve_step(d.update(i, (cur / 2) as u8), i + 1, cur % 2)
    }
}

/// Twice the number `x`.
pub open spec fn doubled(x: Decimal) -> Decimal {
    let (digits, carry) = double_step(x.digits, x.digits.len() as int, 0);
    if carry > 0 {
        Decimal { digits: seq![(carry % 10) as u8] + digits, point: x.point + 1 }
    } else {
        Decimal { digits, point: x.point }
    }
}

/// Half the number `x`.
pub open spec fn halved(x: Decimal) -> Decimal {
    let (digits, rem) = halve_step(x.digits, 0, 0);
    let all = if rem % 2 == 1 {
        digits.push(5u8)
    } else {
        digits
    };
    if all.len() > 0 && all[0] == 0 {
        Decimal { digits: all.subrange(1, all.len() as int), point: x.point - 1 }
    } else {
        Decimal { digits: all, point: x.point }
    }
}

/// The digit of `x` at position `i`, zero outside the digits.
pub open spec fn digit_at(x: Decimal, i: int) -> u64 {
    if 0 <= i < x.digits.len() {
        x.digits[i] as u64
    } else {
        0
    }
}

/// The number that the first `n` digits of `x` write.
pub open spec fn leading_value(x: Decimal, n: int) -> u64
    decreases n,
{
    if n <= 0 {
        0
    } else {
        leading_value(x, n - 1).wrapping_mul(10).wrapping_add(digit_at(x, n - 1))
    }
}

/// The integer part of `x`, or `u64::MAX` where it has more than seventeen
/// digits.
pub open spec fn integer_part(x: Decimal) -> u64 {
    if x.point > 17 {
        u64::MAX
    } else {
        leading_value(x, x.point)
    }
}

/// Whether `x` has a digit other than zero at position `i` or after it.
pub open spec fn nonzero_from(x: Decimal, i: int) -> bool
    decreases x.digits.len() - i,
{
    if i >= x.digits.len() {
        false
    } else if i >= 0 && x.digits[i] != 0 {
        true
    } else if i < 0 {
        nonzero_from(x, 0)
    } else {
        nonzero_from(x, i + 1)
    }
}

/// `x` halved while its integer part has more than fifty-three bits, at most
/// `fuel` times; with the number of halvings added to `e2`.
pub open spec fn scaled_down(x: Decimal, e2: int, fuel: nat) -> (Decimal, int)
    decreases fuel,
{
    if fuel == 0 || integer_part(x) < 0x20_0000_0000_0000 {
        (x, e2)
    } else {
        scaled_down(halved(x), e2 + 1, (fuel - 1) as nat)
    }
}

/// `x` doubled while its integer part has fewer than fifty-three bits and
/// `e2` is above the lowest exponent, at most `fuel` times; with the number
/// of doublings taken off `e2`.
pub open spec fn scaled_up(x: Decimal, e2: int, fuel: nat) -> (Decimal, int)
    decreases fuel,
{
    if fuel == 0 || e2 <= -1074 || integer_part(x) >= 0x10_0000_0000_0000 {
        (x, e2)
    } else {
        scaled_up(doubled(x), e2 - 1, (fuel - 1) as nat)
    }
}

/// The integer nearest to `x`, ties to even; `x` is below two to the
/// fifty-third.
pub open spec fn rounded(x: Decimal) -> u64 {
    let m = integer_part(x);
    let first = digit_at(x, x.point);
    let up = if x.point < 0 {
        false
    } else if first > 5 {
        true
    } else if first < 5 {
        false
    } else {
        nonzero_from(x, x.point + 1) || m % 2 == 1
    };
    if up {
        m.wrapping_add(1)
    } else {
        m
    }
}

/// The Float with the significand `m`, at most two to the fifty-third, and
/// the exponent `e2` of its last bit.
pub open spec fn packed(m: u64, e2: int) -> u64 {
    if m >= 0x20_0000_0000_0000 {
        if e2 + 1076 >= 2047 || e2 + 1076 < 0 {
            INFINITY
        } else {
            ((e2 + 1076) as u64) << 52
        }
    } else if m >= HIDDEN_BIT {
        if e2 + 1075 >= 2047 || e2 + 1075 < 0 {
            INFINITY
        } else {
            (((e2 + 1075) as u64) << 52) | (m & FRACTION)
        }
    } else {
        m
    }
}

/// The Float nearest to the positive number `x`, whose first digit is not
/// zero.
pub open spec fn nearest(x: Decimal) -> u64 {
    if x.point > 310 {
        INFINITY
    } else if x.point < -330 {
        0
    } else {
        let (down, e_down) = scaled_down(x, 0, 1100);
        let (up, e_up) = scaled_up(down, e_down, 1200);
        packed(rounded(up), e_up)
    }
}

/// The characters of `s` from `from` up to `to`, as digit values.
pub open spec fn digits_of(s: Seq<char>, from: int, to: int) -> Seq<u8> {
    Seq::new(
        if to >= from {
            (to - from) as nat
        } else {
            0
        },
        |i: int| (((s[from + i] as u32) - 48) % 256) as u8,
    )
}

/// The number that the digits of `s` from `from` up to `to` write, capped at
/// one hundred thousand.
pub open spec fn capped_value(s: Seq<char>, from: int, to: int) -> int
    decreases to - from,
{
    if to <= from || to > s.len() || from < 0 {
        0
    } else {
        let head = capped_value(s, from, to - 1);
        let v = head * 10 + digit_value(s[to - 1]);
        if v > 100000 {
            100000
        } else {
            v
        }
    }
}

/// The index of the first digit of `d` from `i` on that is not zero.
pub open spec fn skip_zeros(d: Seq<u8>, i: int) -> int
    decreases d.len() - i,
{
    if 0 <= i < d.len() && d[i] == 0 {
        skip_zeros(d, i + 1)
    } else {
        i
    }
}

/// The parts of a Float literal: where its integer digits end, where its
/// fraction digits start and end, and its exponent.
pub ghost struct FloatParts {
    pub int_end: int,
    pub frac_start: int,
    pub frac_end: int,
    pub exponent: int,
}

/// The parts of the Float literal `s`: digits, then a point and digits, or
/// an exponent mark with an optional sign and at least one digit, or both.
/// `None` where `s` is not of that form.
pub open spec fn float_parts(s: Seq<char>) -> Option<FloatParts> {
    let a = scan_digits(s, 0);
    let pointed = 0 < a < s.len() && s[a] == '.';
    let start = if pointed {
        a + 1
    } else {
        a
    };
    let b = if pointed {
        scan_digits(s, a + 1)
    } else {
        a
    };
    if a <= 0 {
        None
    } else {
        if b >= s.len() {
            if pointed {
                Some(FloatParts { int_end: a, frac_start: start, frac_end: b, exponent: 0 })
            } else {
                None
            }
        } else if s[b] != 'e' && s[b] != 'E' {
            None
        } else {
            let negative = b + 1 < s.len() && s[b + 1] == '-';
            let c = if b + 1 < s.len() && (s[b + 1] == '+' || s[b + 1] == '-') {
                b + 2
            } else {
                b + 1
            };
            let e = scan_digits(s, c);
            if e <= c || e != s.len() {
                None
            } else if negative {
                Some(
                    FloatParts {
                        int_end: a,
                        frac_start: start,
                        frac_end: b,
                        exponent: -capped_value(s, c, e),
                    },
                )
            } else {
                Some(
                    FloatParts {
                        int_end: a,
                        frac_start: start,
                        frac_end: b,
                        exponent: capped_value(s, c, e),
                    },
                )
            }
        }
    }
}

/// The Float that the literal `s` writes: the one nearest to its value, ties
/// to even, infinity where the value is too large. `None` where `s` is no
/// Float literal.
pub open spec fn float_literal(s: Seq<char>) -> Option<u64> {
    match float_parts(s) {
        None => None,
        Some(p) => {
            let all = digits_of(s, 0, p.int_end) + digits_of(s, p.frac_start, p.frac_end);
            let z = skip_zeros(all, 0);
            if z >= all.len() {
                Some(0)
            } else {
                Some(
                    nearest(
                        Decimal {
                            digits: all.subrange(z, all.len() as int),
                            point: p.int_end - z + p.exponent,
                        },
                    ),
                )
            }
        },
    }
}

/// A decimal number in memory.
struct Digits {
    digits: Vec<u8>,
    point: i64,
}

impl View for Digits {
    type V = Decimal;

    closed spec fn view(&self) -> Decimal {
        Decimal { digits: self.digits@, point: self.point as int }
    }
}

fn double_digits(x: &mut Digits)
    requires
        -100000 <= old(x).point <= 100000,
    ensures
        final(x)@ == doubled(old(x)@),
        old(x).point <= final(x).point <= old(x).point + 1,
        final(x).digits@.len() <= old(x).digits@.len() + 1,
{
    let ghost start = x.digits@;
    let mut carry: u64 = 0;
    let mut i: usize = x.digits.len();
    while i > 0
        invariant
            i <= x.digits.len(),
            x.digits@.len() == start.len(),
            carry <= 100,
            x.point == old(x).point,
            double_step(start, start.len() as int, 0) == double_step(x.digits@, i as int, carry as int),
        decreases i,
    {
        let v: u64 = (x.digits[i - 1] as u64) * 2 + carry;
        x.digits[i - 1] = (v % 10) as u8;
        carry = v / 10;
        i -= 1;
    }
    if carry > 0 {
        let ghost body = x.digits@;
        x.digits.insert(0, (carry % 10) as u8);
        assert(x.digits@ =~= seq![(carry % 10) as u8] + body);
        x.point = x.point + 1;
    }
}

fn halve_digits(x: &mut Digits)
    requires
        -100000 <= old(x).point <= 100000,
    ensures
        final(x)@ == halved(old(x)@),
        old(x).point - 1 <= final(x).point <= old(x).point,
        final(x).digits@.len() <= old(x).digits@.len() + 1,
{
    let ghost start = x.digits@;
    let mut rem: u64 = 0;
    let mut i: usize = 0;
    while i < x.digits.len()
        invariant
            i <= x.digits.len(),
            x.digits@.len() == start.len(),
            x.point == old(x).point,
            halve_step(start, 0, 0) == halve_step(x.digits@, i as int, rem as int),
            rem <= 1,
        decreases x.digits.len() - i,
    {
        let cur: u64 = (rem % 2) * 10 + (x.digits[i] as u64);
        x.digits[i] = (cur / 2) as u8;
        rem = cur % 2;
        i += 1;
    }
    if rem % 2 == 1 {
        x.digits.push(5u8);
    }
    if x.digits.len() > 0 && x.digits[0] == 0 {
        let ghost all = x.digits@;
        x.digits.remove(0);
        assert(x.digits@ =~= all.subrange(1, all.len() as int));
        x.point = x.point - 1;
    }
}

fn leading_digits(x: &Digits, n: i64) -> (r: u64)
    requires
        n <= 17,
    ensures
        r == leading_value(x@, n as int),
    decreases n,
{
    if n <= 0 {
        0
    } else {
        let head = leading_digits(x, n - 1);
        let i: usize = (n - 1) as usize;
        let d: u64 = if i < x.digits.len() {
            x.digits[i] as u64
        } else {
            0
        };
        head.wrapping_mul(10).wrapping_add(d)
    }
}

fn integer_digits(x: &Digits) -> (r: u64)
    ensures
        r == integer_part(x@),
{
    if x.point > 17 {
        u64::MAX
    } else {
        leading_digits(x, x.point)
    }
}

fn any_nonzero_from(x: &Digits, from: i64) -> (r: bool)
    requires
        0 <= from,
    ensures
        r == nonzero_from(x@, from as int),
{
    if from as u64 >= x.digits.len() as u64 {
        return false;
    }
    let mut i: usize = from as usize;
    while i < x.digits.len()
        invariant
            from <= i <= x.digits.len(),
            nonzero_from(x@, from as int) == nonzero_from(x@, i as int),
        decreases x.digits.len() - i,
    {
        if x.digits[i] != 0 {
            return true;
        }
        i += 1;
    }
    false
}

fn round_digits(x: &Digits) -> (r: u64)
    requires
        -100000 <= x.point <= 100000,
    ensures
        r == rounded(x@),
{
    let m = integer_digits(x);
    let first: u64 = if x.point >= 0 && (x.point as u64) < (x.digits.len() as u64) {
        x.digits[x.point as usize] as u64
    } else {
        0
    };
    let up = if x.point < 0 {
        false
    } else if first > 5 {
        true
    } else if first < 5 {
        false
    } else {
        any_nonzero_from(x, x.point + 1) || m % 2 == 1
    };
    if up {
        m.wrapping_add(1)
    } else {
        m
    }
}

fn pack_bits(m: u64, e2: i64) -> (r: u64)
    requires
        -100000 <= e2 <= 100000,
    ensures
        r == packed(m, e2 as int),
{
    if m >= 0x20_0000_0000_0000 {
        if e2 + 1076 >= 2047 || e2 + 1076 < 0 {
            INFINITY
        } else {
            ((e2 + 1076) as u64) << 52
        }
    } else if m >= HIDDEN_BIT {
        if e2 + 1075 >= 2047 || e2 + 1075 < 0 {
            INFINITY
        } else {
            (((e2 + 1075) as u64) << 52) | (m & FRACTION)
        }
    } else {
        m
    }
}

fn nearest_bits(x: Digits) -> (r: u64)
    ensures
        r == nearest(x@),
{
    if x.point > 310 {
        return INFINITY;
    }
    if x.point < -330 {
        return 0;
    }
    let mut x = x;
    let ghost start = x@;
    let mut e2: i64 = 0;
    let mut fuel: u64 = 1100;
    while fuel > 0 && integer_digits(&x) >= 0x20_0000_0000_0000
        invariant
            fuel <= 1100,
            e2 == 1100 - fuel,
            -330 - (1100 - fuel) <= x.point <= 310,
            scaled_down(start, 0, 1100) == scaled_down(x@, e2 as int, fuel as nat),
        decreases fuel,
    {
        halve_digits(&mut x);
        e2 = e2 + 1;
        fuel = fuel - 1;
    }
    let ghost down = x@;
    let ghost e_down = e2;
    let mut more: u64 = 1200;
    while more > 0 && e2 > -1074 && integer_digits(&x) < 0x10_0000_0000_0000
        invariant
            more <= 1200,
            e2 == e_down - (1200 - more),
            0 <= e_down <= 1100,
            -1430 <= x.point <= 310 + (1200 - more),
            scaled_up(down, e_down as int, 1200) == scaled_up(x@, e2 as int, more as nat),
        decreases more,
    {
        double_digits(&mut x);
        e2 = e2 - 1;
        more = more - 1;
    }
    pack_bits(round_digits(&x), e2)
}

fn digit_values(chars: &Vec<char>, from: usize, to: usize, out: &mut Vec<u8>)
    requires
        from <= to <= chars.len(),
    ensures
        final(out)@ == old(out)@ + digits_of(chars@, from as int, to as int),
{
    let mut i: usize = from;
    while i < to
        invariant
            from <= i <= to,
            to <= chars.len(),
            out@ == old(out)@ + digits_of(chars@, from as int, i as int),
        decreases to - i,
    {
        let c = chars[i];
        let d: u8 = (((c as u32).wrapping_sub(48)) % 256) as u8;
        out.push(d);
        assert(out@ =~= old(out)@ + digits_of(chars@, from as int, i + 1));
        i += 1;
    }
    assert(out@ =~= old(out)@ + digits_of(chars@, from as int, to as int));
}

fn capped_digits(chars: &Vec<char>, from: usize, to: usize) -> (r: i64)
    requires
        from <= to <= chars.len(),
        forall|k: int| from <= k < to ==> is_digit(#[trigger] chars@[k]),
    ensures
        r == capped_value(chars@, from as int, to as int),
        0 <= r <= 100000,
{
    let mut acc: i64 = 0;
    let mut i: usize = from;
    while i < to
        invariant
            from <= i <= to,
            to <= chars.len(),
            0 <= acc <= 100000,
            acc == capped_value(chars@, from as int, i as int),
            forall|k: int| from <= k < to ==> is_digit(#[trigger] chars@[k]),
        decreases to - i,
    {
        let c = chars[i];
        assert(is_digit(chars@[i as int]));
        let v: i64 = acc * 10 + ((c as u32 - 48) as i64);
        acc = if v > 100000 {
            100000
        } else {
            v
        };
        i += 1;
    }
    acc
}

fn read_digits_from(chars: &Vec<char>, i: usize) -> (j: usize)
    requires
        i <= chars.len(),
    ensures
        j == scan_digits(chars@, i as int),
        i <= j <= chars.len(),
        forall|k: int| i <= k < j ==> is_digit(#[trigger] chars@[k]),
{
    let mut j: usize = i;
    while j < chars.len() && char_is_digit(chars[j])
        invariant
            i <= j <= chars.len(),
            scan_digits(chars@, i as int) == scan_digits(chars@, j as int),
            forall|k: int| i <= k < j ==> is_digit(#[trigger] chars@[k]),
        decreases chars.len() - j,
    {
        j += 1;
    }
    j
}

/// The parts of a Float literal in memory.
struct Parts {
    int_end: usize,
    frac_start: usize,
    frac_end: usize,
    exponent: i64,
}

fn split_float(chars: &Vec<char>) -> (r: Option<Parts>)
    ensures
        match r {
            Some(p) => float_parts(chars@) == Some(
                FloatParts {
                    int_end: p.int_end as int,
                    frac_start: p.frac_start as int,
                    frac_end: p.frac_end as int,
                    exponent: p.exponent as int,
                },
            ) && 0 < p.int_end <= p.frac_start <= p.frac_end <= chars.len() && -100000
                <= p.exponent <= 100000,
            None => float_parts(chars@) is None,
        },
{
    let a = read_digits_from(chars, 0);
    if a == 0 {
        return None;
    }
    let pointed = a < chars.len() && chars[a] == '.';
    let start: usize = if pointed {
        a + 1
    } else {
        a
    };
    let b = if pointed {
        read_digits_from(chars, a + 1)
    } else {
        a
    };
    if b >= chars.len() {
        return if pointed {
            Some(Parts { int_end: a, frac_start: start, frac_end: b, exponent: 0 })
        } else {
            None
        };
    }
    if chars[b] != 'e' && chars[b] != 'E' {
        return None;
    }
    let negative = b + 1 < chars.len() && chars[b + 1] == '-';
    let c: usize = if b + 1 < chars.len() && (chars[b + 1] == '+' || chars[b + 1] == '-') {
        b + 2
    } else {
        b + 1
    };
    let e = read_digits_from(chars, c);
    if e <= c || e != chars.len() {
        return None;
    }
    let magnitude = capped_digits(chars, c, e);
    if negative {
        Some(Parts { int_end: a, frac_start: start, frac_end: b, exponent: -magnitude })
    } else {
        Some(Parts { int_end: a, frac_start: start, frac_end: b, exponent: magnitude })
    }
}

/// Reads a Float literal.
pub fn parse_float(chars: &Vec<char>) -> (r: Option<u64>)
    ensures
        r == float_literal(chars@),
{
    let p = match split_float(chars) {
        Some(p) => p,
        None => {
            return None;
        },
    };
    let mut all: Vec<u8> = Vec::new();
    digit_values(chars, 0, p.int_end, &mut all);
    digit_values(chars, p.frac_start, p.frac_end, &mut all);
    assert(all@ =~= digits_of(chars@, 0, p.int_end as int) + digits_of(
        chars@,
        p.frac_start as int,
        p.frac_end as int,
    ));
    let mut z: usize = 0;
    while z < all.len() && all[z] == 0
        invariant
            z <= all.len(),
            z <= p.int_end + p.frac_end,
            all@.len() <= p.int_end + p.frac_end,
            skip_zeros(all@, 0) == skip_zeros(all@, z as int),
        decreases all.len() - z,
    {
        z += 1;
    }
    if z >= all.len() {
        return Some(0);
    }
    let mut kept: Vec<u8> = Vec::new();
    let mut i: usize = z;
    while i < all.len()
        invariant
            z <= i <= all.len(),
            kept@ == all@.subrange(z as int, i as int),
        decreases all.len() - i,
    {
        kept.push(all[i]);
        assert(all@.subrange(z as int, i + 1) =~= all@.subrange(z as int, i as int).push(
            all@[i as int],
        ));
        i += 1;
    }
    if p.int_end as u64 > 0x3FFF_FFFF_FFFFu64 || z as u64 > 0x3FFF_FFFF_FFFFu64 {
        return nearest_far(kept, p.int_end, z, p.exponent);
    }
    let point: i64 = (p.int_end as i64) - (z as i64) + p.exponent;
    Some(nearest_bits(Digits { digits: kept, point }))
}

/// The nearest Float where the digits are so many that their count does not
/// fit the arithmetic of [`parse_float`].
fn nearest_far(kept: Vec<u8>, int_end: usize, z: usize, exponent: i64) -> (r: Option<u64>)
    requires
        -100000 <= exponent <= 100000,
        int_end > 0x3FFF_FFFF_FFFF || z > 0x3FFF_FFFF_FFFF,
    ensures
        r == Some(nearest(Decimal { digits: kept@, point: int_end - z + exponent })),
{
    if int_end as u64 >= (z as u64) {
        let gap: u64 = (int_end as u64) - (z as u64);
        if gap > 1000000 {
            Some(INFINITY)
        } else {
            Some(nearest_bits(Digits { digits: kept, point: (gap as i64) + exponent }))
        }
    } else {
        let gap: u64 = (z as u64) - (int_end as u64);
        if gap > 1000000 {
            Some(0)
        } else {
            Some(nearest_bits(Digits { digits: kept, point: exponent - (gap as i64) }))
        }
    }
}

/// The decimal digits of `n`, most significant first; none for zero.
pub open spec fn digits_of_number(n: nat) -> Seq<u8>
    decreases n,
{
    if n == 0 {
        Seq::empty()
    } else {
        digits_of_number(n / 10).push((n % 10) as u8)
    }
}

/// The integer `n` as a decimal number.
pub open spec fn whole(n: nat) -> Decimal {
    Decimal { digits: digits_of_number(n), point: digits_of_number(n).len() as int }
}

/// The number `x` doubled `e` times for a positive `e`, halved `-e` times
/// for a negative one.
pub open spec fn scaled(x: Decimal, e: int) -> Decimal
    decreases
            if e >= 0 {
                e
            } else {
                -e
            },
{
    if e > 0 {
        scaled(doubled(x), e - 1)
    } else if e < 0 {
        scaled(halved(x), e + 1)
    } else {
        x
    }
}

/// The digits of `x` laid out over `len` positions of which the first
/// `point` stand before the point; zero where `x` has no digit.
pub open spec fn laid_out(x: Decimal, point: int, len: int) -> Seq<u8> {
    Seq::new(
        if len >= 0 {
            len as nat
        } else {
            0
        },
        |k: int| (digit_at(x, k - (point - x.point)) % 256) as u8,
    )
}

/// The position of the last digit of `s` before `n` that is not zero; `-1`
/// where there is none.
pub open spec fn last_nonzero(s: Seq<u8>, n: int) -> int
    decreases n,
{
    if n <= 0 || n > s.len() {
        -1
    } else if s[n - 1] != 0 {
        n - 1
    } else {
        last_nonzero(s, n - 1)
    }
}

/// How far the digits of the value read so far are below those of the upper
/// bound, after one more digit `dx` of the value and `dh` of the bound:
/// `0` for equal, `1` for one less, `2` for less than that.
pub open spec fn next_gap(gap: int, dx: u8, dh: u8) -> int {
    if gap == 0 {
        if dx == dh {
            0
        } else if dx + 1 == dh {
            1
        } else {
            2
        }
    } else if gap == 1 {
        if dh == 0 && dx == 9 {
            1
        } else {
            2
        }
    } else {
        2
    }
}

/// Where the shortest digits of the value `x` end that still tell it from
/// its neighbours, and whether the last digit is rounded up. `low` and `high`
/// are the bounds half way to the neighbours, which count as inside where
/// `inclusive`; all three are laid out alike. The search starts at position
/// `k`, with the digits before `k` above those of `low` where `above`, and
/// `gap` below those of `high`.
pub open spec fn shortest_end(
    x: Seq<u8>,
    low: Seq<u8>,
    high: Seq<u8>,
    inclusive: bool,
    k: int,
    above: bool,
    gap: int,
) -> (int, bool)
    decreases x.len() - k,
{
    if k < 0 || k >= x.len() || k >= low.len() || k >= high.len() {
        (k, false)
    } else {
        let now_above = above || x[k] > low[k];
        let now_gap = next_gap(gap, x[k], high[k]);
        let down = now_above || (inclusive && last_nonzero(low, low.len() as int) <= k);
        let up = now_gap == 2 || (now_gap == 1 && (inclusive || last_nonzero(
            high,
            high.len() as int,
        ) > k));
        if down || up || k + 1 >= x.len() {
            (k, up && (!down || (k + 1 < x.len() && x[k + 1] >= 5)))
        } else {
            shortest_end(x, low, high, inclusive, k + 1, now_above, now_gap)
        }
    }
}

/// `s` with one added at the position before `n`; a carry runs to the left.
pub open spec fn bumped(s: Seq<u8>, n: int) -> Seq<u8>
    decreases n,
{
    if n <= 0 || n > s.len() {
        s
    } else if s[n - 1] >= 9 {
        bumped(s.update(n - 1, 0u8), n - 1)
    } else {
        s.update(n - 1, (s[n - 1] + 1) as u8)
    }
}

/// The digits of `s` up to position `end` and zeros after it, with one added
/// at `end` where `up`.
pub open spec fn cut(s: Seq<u8>, end: int, up: bool) -> Seq<u8> {
    let kept = Seq::new(
        s.len(),
        |k: int|
            if k <= end {
                s[k]
            } else {
                0u8
            },
    );
    if up {
        bumped(kept, end + 1)
    } else {
        kept
    }
}

/// The characters of the digits of `s` from `from` up to `to`.
pub open spec fn digit_chars(s: Seq<u8>, from: int, to: int) -> Seq<char> {
    Seq::new(
        if to >= from {
            (to - from) as nat
        } else {
            0
        },
        |k: int| digit_char((s[from + k] % 10) as int),
    )
}

/// The decimal notation of the digits `s`, of which the first `point` stand
/// before the point: no leading zeros but one before the point, no point
/// without digits after it, no trailing zeros after the point.
pub open spec fn notation(s: Seq<u8>, point: int) -> Seq<char> {
    let first = skip_zeros(s, 0);
    let start = if first >= point {
        point - 1
    } else {
        first
    };
    let last = last_nonzero(s, s.len() as int);
    if last < point {
        digit_chars(s, start, point)
    } else {
        digit_chars(s, start, point) + seq!['.'] + digit_chars(s, point, last + 1)
    }
}

/// The number of positions before the point in a layout that holds `x`,
/// `low` and `high` with a spare position in front.
pub open spec fn layout_point(x: Decimal, low: Decimal, high: Decimal) -> int {
    let a = if x.point > low.point {
        x.point
    } else {
        low.point
    };
    let b = if a > high.point {
        a
    } else {
        high.point
    };
    if b > 0 {
        b + 1
    } else {
        2
    }
}

/// The number of positions in a layout that holds `x`, `low` and `high`.
pub open spec fn layout_len(x: Decimal, low: Decimal, high: Decimal, point: int) -> int {
    let a = x.digits.len() + point - x.point;
    let b = low.digits.len() + point - low.point;
    let c = high.digits.len() + point - high.point;
    let ab = if a > b {
        a
    } else {
        b
    };
    let abc = if ab > c {
        ab
    } else {
        c
    };
    if abc > point {
        abc
    } else {
        point
    }
}

/// The shortest decimal notation that reads back as the positive finite
/// Float with the significand `m`, the scale `scale` and the exponent field
/// `field`: as few digits as tell it from its neighbours, of those the
/// nearest.
pub open spec fn shortest(m: u64, scale: int, field: u64) -> Seq<char> {
    notation(shortest_digits(m, scale, field).0, shortest_digits(m, scale, field).1)
}

/// The digits of [`shortest`], and how many of them stand before the point.
pub open spec fn shortest_digits(m: u64, scale: int, field: u64) -> (Seq<u8>, int) {
    let e = scale - 1077;
    let x = scaled(whole((4 * m) as nat), e);
    let low = if m == HIDDEN_BIT && field > 1 {
        scaled(whole((4 * m - 1) as nat), e)
    } else {
        scaled(whole((4 * m - 2) as nat), e)
    };
    let high = scaled(whole((4 * m + 2) as nat), e);
    let point = layout_point(x, low, high);
    let len = layout_len(x, low, high, point);
    let lx = laid_out(x, point, len);
    let ll = laid_out(low, point, len);
    let lh = laid_out(high, point, len);
    let (end, up) = shortest_end(lx, ll, lh, m % 2 == 0, skip_zeros(lh, 0), false, 0);
    (cut(lx, end, up), point)
}

/// Whether `c` writes a number without an exponent: digits alone, where
/// `dot` is the length of `c`, or digits, a point at `dot`, and digits.
pub open spec fn plain_number(c: Seq<char>, dot: int) -> bool {
    &&& 0 < dot <= c.len()
    &&& dot != c.len() - 1
    &&& dot < c.len() ==> c[dot] == '.'
    &&& forall|i: int| 0 <= i < c.len() && i != dot ==> is_digit(#[trigger] c[i])
}

/// Where the point stands in the notation of the digits `s`, of which the
/// first `point` stand before the point; the length of the notation where it
/// has no point.
pub open spec fn notation_dot(s: Seq<u8>, point: int) -> int {
    let first = skip_zeros(s, 0);
    if first >= point {
        1
    } else {
        point - first
    }
}

/// The notation of digits is a plain number.
pub proof fn lemma_notation_plain(s: Seq<u8>, point: int)
    requires
        1 <= point <= s.len(),
    ensures
        plain_number(notation(s, point), notation_dot(s, point)),
{
    let first = skip_zeros(s, 0);
    lemma_zeros_skipped(s, 0);
    lemma_last_nonzero(s, s.len() as int);
    let start = if first >= point {
        point - 1
    } else {
        first
    };
    let last = last_nonzero(s, s.len() as int);
    let c = notation(s, point);
    let dot = notation_dot(s, point);
    assert forall|i: int| 0 <= i < c.len() && i != dot implies is_digit(#[trigger] c[i]) by {
        if i < dot {
            lemma_digit_is_digit((s[start + i] % 10) as int);
        } else {
            lemma_digit_is_digit((s[point + (i - dot - 1)] % 10) as int);
        }
    }
}

/// Skipping zeros moves forward and stays inside the digits.
proof fn lemma_zeros_skipped(d: Seq<u8>, i: int)
    requires
        0 <= i <= d.len(),
    ensures
        i <= skip_zeros(d, i) <= d.len(),
    decreases d.len() - i,
{
    if i < d.len() && d[i] == 0 {
        lemma_zeros_skipped(d, i + 1);
    }
}

/// The last digit that is not zero stands before `n`.
proof fn lemma_last_nonzero(s: Seq<u8>, n: int)
    requires
        0 <= n <= s.len(),
    ensures
        -1 <= last_nonzero(s, n) < n,
    decreases n,
{
    if n > 0 && s[n - 1] == 0 {
        lemma_last_nonzero(s, n - 1);
    }
}

/// The character of a digit is a digit.
proof fn lemma_digit_is_digit(d: int)
    requires
        0 <= d <= 9,
    ensures
        is_digit(digit_char(d)),
{
    assert(digit_char(d) as u32 == 48 + d);
}

/// Adding one at a position keeps the number of digits.
proof fn lemma_bumped_len(s: Seq<u8>, n: int)
    ensures
        bumped(s, n).len() == s.len(),
    decreases n,
{
    if n > 0 && n <= s.len() && s[n - 1] >= 9 {
        lemma_bumped_len(s.update(n - 1, 0u8), n - 1);
    }
}

/// Doubling digit by digit keeps the number of digits.
proof fn lemma_double_step_len(d: Seq<u8>, i: int, carry: int)
    ensures
        double_step(d, i, carry).0.len() == d.len(),
    decreases i,
{
    if 0 < i <= d.len() {
        let v = (d[i - 1] as int) * 2 + carry;
        lemma_double_step_len(d.update(i - 1, (v % 10) as u8), i - 1, v / 10);
    }
}

/// Halving digit by digit keeps the number of digits.
proof fn lemma_halve_step_len(d: Seq<u8>, i: int, rem: int)
    ensures
        halve_step(d, i, rem).0.len() == d.len(),
    decreases d.len() - i,
{
    if 0 <= i < d.len() {
        let cur = (rem % 2) * 10 + (d[i] as int);
        lemma_halve_step_len(d.update(i, (cur / 2) as u8), i + 1, cur % 2);
    }
}

/// Doubling or halving a number `e` times adds at most `e` digits and moves
/// the point by at most `e` places.
proof fn lemma_scaled_size(x: Decimal, e: int)
    ensures
        scaled(x, e).digits.len() <= x.digits.len() + (if e >= 0 {
            e
        } else {
            -e
        }),
        x.point - (if e >= 0 {
            e
        } else {
            -e
        }) <= scaled(x, e).point <= x.point + (if e >= 0 {
            e
        } else {
            -e
        }),
    decreases
            if e >= 0 {
                e
            } else {
                -e
            },
{
    if e > 0 {
        lemma_double_step_len(x.digits, x.digits.len() as int, 0);
        lemma_scaled_size(doubled(x), e - 1);
    } else if e < 0 {
        lemma_halve_step_len(x.digits, 0, 0);
        lemma_scaled_size(halved(x), e + 1);
    }
}

/// The notation of digits has at most one character more than there are
/// digits.
proof fn lemma_notation_len(s: Seq<u8>, point: int)
    requires
        1 <= point <= s.len(),
    ensures
        notation(s, point).len() <= s.len() + 1,
{
    lemma_zeros_skipped(s, 0);
    lemma_last_nonzero(s, s.len() as int);
}

/// The shortest notation of a Float has fewer than five thousand
/// characters.
pub proof fn lemma_shortest_len(m: u64, scale: int, field: u64)
    requires
        0 < m < 0x20_0000_0000_0000,
        1 <= scale <= 2047,
    ensures
        shortest(m, scale, field).len() < 5000,
{
    let e = scale - 1077;
    let a = whole((4 * m) as nat);
    let b = if m == HIDDEN_BIT && field > 1 {
        whole((4 * m - 1) as nat)
    } else {
        whole((4 * m - 2) as nat)
    };
    let c = whole((4 * m + 2) as nat);
    assert(vstd::arithmetic::power::pow(10, 17) == 100_000_000_000_000_000int) by {
        reveal_with_fuel(vstd::arithmetic::power::pow, 18);
    }
    lemma_digit_count((4 * m) as nat, 17);
    lemma_digit_count((4 * m - 1) as nat, 17);
    lemma_digit_count((4 * m - 2) as nat, 17);
    lemma_digit_count((4 * m + 2) as nat, 17);
    let x = scaled(a, e);
    let low = scaled(b, e);
    let high = scaled(c, e);
    lemma_scaled_size(a, e);
    lemma_scaled_size(b, e);
    lemma_scaled_size(c, e);
    let point = layout_point(x, low, high);
    let len = layout_len(x, low, high, point);
    let lx = laid_out(x, point, len);
    let ll = laid_out(low, point, len);
    let lh = laid_out(high, point, len);
    let (end, up) = shortest_end(lx, ll, lh, m % 2 == 0, skip_zeros(lh, 0), false, 0);
    assert(2 <= point <= 1100);
    assert(point <= len <= 4000);
    assert(lx.len() == len);
    let kept = Seq::new(
        lx.len(),
        |k: int|
            if k <= end {
                lx[k]
            } else {
                0u8
            },
    );
    lemma_bumped_len(kept, end + 1);
    assert(cut(lx, end, up).len() == len);
    assert(shortest_digits(m, scale, field) == (cut(lx, end, up), point));
    lemma_notation_len(cut(lx, end, up), point);
}

/// The shortest notation of a Float is a plain number.
pub proof fn lemma_shortest_plain(m: u64, scale: int, field: u64)
    ensures
        plain_number(
            shortest(m, scale, field),
            notation_dot(shortest_digits(m, scale, field).0, shortest_digits(m, scale, field).1),
        ),
{
    let e = scale - 1077;
    let x = scaled(whole((4 * m) as nat), e);
    let low = if m == HIDDEN_BIT && field > 1 {
        scaled(whole((4 * m - 1) as nat), e)
    } else {
        scaled(whole((4 * m - 2) as nat), e)
    };
    let high = scaled(whole((4 * m + 2) as nat), e);
    let point = layout_point(x, low, high);
    let len = layout_len(x, low, high, point);
    let lx = laid_out(x, point, len);
    let ll = laid_out(low, point, len);
    let lh = laid_out(high, point, len);
    let (end, up) = shortest_end(lx, ll, lh, m % 2 == 0, skip_zeros(lh, 0), false, 0);
    assert(point >= 2 && len >= point);
    assert(lx.len() == len);
    let kept = Seq::new(
        lx.len(),
        |k: int|
            if k <= end {
                lx[k]
            } else {
                0u8
            },
    );
    lemma_bumped_len(kept, end + 1);
    assert(cut(lx, end, up).len() == len);
    assert(shortest_digits(m, scale, field) == (cut(lx, end, up), point));
    lemma_notation_plain(cut(lx, end, up), point);
}

/// The whole number that the positive finite Float `x` stands for, where it
/// is one of fewer than fifty-four bits.
pub open spec fn whole_of(x: u64) -> Option<u64> {
    let field = exponent_field(x);
    if 1023 <= field <= 1075 {
        let n = significand(x) >> ((1075 - field) as u64);
        if n < 0x20_0000_0000_0000 && from_int(n as i64) == x {
            Some(n)
        } else {
            None
        }
    } else {
        None
    }
}

/// How a Float is written: `NaN`, `inf`, a whole number of fewer than
/// fifty-four bits as an Int is written, and any other number in the
/// shortest decimal notation that tells it from its neighbours; with `-` in
/// front of a negative one.
pub open spec fn float_text(x: u64) -> Seq<char> {
    if is_nan(x) {
        "NaN"@
    } else if is_infinite(x) {
        if is_negative(x) {
            "-inf"@
        } else {
            "inf"@
        }
    } else if is_zero(x) {
        if is_negative(x) {
            "-0"@
        } else {
            "0"@
        }
    } else if significand(x) == 0 {
        "0"@
    } else {
        let body = match whole_of(magnitude(x)) {
            Some(n) => decimal_text(n as nat),
            None => shortest(significand(x), scale(x), exponent_field(x)),
        };
        if is_negative(x) {
            "-"@ + body
        } else {
            body
        }
    }
}

/// A number below ten to the `k` has at most `k` digits.
proof fn lemma_digit_count(n: nat, k: nat)
    requires
        n < vstd::arithmetic::power::pow(10, k),
    ensures
        digits_of_number(n).len() <= k,
    decreases k,
{
    vstd::arithmetic::power::lemma_pow0(10);
    if n != 0 {
        if k == 0 {
        } else {
            vstd::arithmetic::power::lemma_pow_positive(10, (k - 1) as nat);
            assert(vstd::arithmetic::power::pow(10, k) == 10 * vstd::arithmetic::power::pow(
                10,
                (k - 1) as nat,
            )) by {
                vstd::arithmetic::power::lemma_pow_adds(10, 1, (k - 1) as nat);
                vstd::arithmetic::power::lemma_pow1(10);
            }
            lemma_digit_count(n / 10, (k - 1) as nat);
        }
    }
}

fn number_digits(n: u64) -> (r: Vec<u8>)
    ensures
        r@ == digits_of_number(n as nat),
    decreases n,
{
    if n == 0 {
        Vec::new()
    } else {
        let mut r = number_digits(n / 10);
        r.push((n % 10) as u8);
        r
    }
}

fn whole_digits(n: u64) -> (r: Digits)
    ensures
        r@ == whole(n as nat),
        0 <= r.point <= 20,
        r.digits@.len() <= 20,
{
    let digits = number_digits(n);
    proof {
        assert(vstd::arithmetic::power::pow(10, 20) == 100_000_000_000_000_000_000int) by {
            reveal_with_fuel(vstd::arithmetic::power::pow, 21);
        }
        lemma_digit_count(n as nat, 20);
    }
    let point = digits.len() as i64;
    Digits { digits, point }
}

fn scale_digits(x: Digits, e: i64) -> (r: Digits)
    requires
        -3000 <= e <= 3000,
        0 <= x.point <= 20,
        x.digits@.len() <= 20,
    ensures
        r@ == scaled(x@, e as int),
        -3000 <= r.point <= 3020,
        r.digits@.len() <= 3020,
{
    let mut x = x;
    let ghost start = x@;
    if e >= 0 {
        let mut left: i64 = e;
        while left > 0
            invariant
                0 <= left <= e <= 3000,
                0 <= x.point <= 20 + (e - left),
                x.digits@.len() <= 20 + (e - left),
                scaled(start, e as int) == scaled(x@, left as int),
            decreases left,
        {
            double_digits(&mut x);
            left = left - 1;
        }
        x
    } else {
        let mut left: i64 = e;
        while left < 0
            invariant
                -3000 <= e <= left <= 0,
                -(left - e) <= x.point <= 20,
                x.digits@.len() <= 20 + (left - e),
                scaled(start, e as int) == scaled(x@, left as int),
            decreases -left,
        {
            halve_digits(&mut x);
            left = left + 1;
        }
        x
    }
}

fn lay_out(x: &Digits, point: i64, len: usize) -> (r: Vec<u8>)
    requires
        -4000 <= point <= 4000,
        -4000 <= x.point <= 4000,
        len <= 100000,
    ensures
        r@ == laid_out(x@, point as int, len as int),
{
    let shift: i64 = point - x.point;
    let mut out: Vec<u8> = Vec::new();
    let mut k: usize = 0;
    while k < len
        invariant
            k <= len <= 100000,
            shift == point - x.point,
            -8000 <= shift <= 8000,
            out@.len() == k,
            forall|j: int| 0 <= j < k ==> out@[j] == laid_out(x@, point as int, len as int)[j],
        decreases len - k,
    {
        let j: i64 = (k as i64) - shift;
        let d: u8 = if j >= 0 && (j as u64) < (x.digits.len() as u64) {
            x.digits[j as usize]
        } else {
            0
        };
        out.push(d);
        k += 1;
    }
    assert(out@ =~= laid_out(x@, point as int, len as int));
    out
}

fn first_nonzero(s: &Vec<u8>) -> (r: usize)
    ensures
        r == skip_zeros(s@, 0),
        r <= s.len(),
{
    let mut i: usize = 0;
    while i < s.len() && s[i] == 0
        invariant
            i <= s.len(),
            skip_zeros(s@, 0) == skip_zeros(s@, i as int),
        decreases s.len() - i,
    {
        i += 1;
    }
    i
}

/// The position after the last digit that is not zero; zero where there is
/// none.
fn after_last_nonzero(s: &Vec<u8>) -> (r: usize)
    ensures
        r == last_nonzero(s@, s@.len() as int) + 1,
        r <= s.len(),
{
    let mut n: usize = s.len();
    while n > 0 && s[n - 1] == 0
        invariant
            n <= s.len(),
            last_nonzero(s@, s@.len() as int) == last_nonzero(s@, n as int),
        decreases n,
    {
        n -= 1;
    }
    n
}

fn find_end(x: &Vec<u8>, low: &Vec<u8>, high: &Vec<u8>, inclusive: bool, from: usize) -> (r: (usize, bool))
    ensures
        shortest_end(x@, low@, high@, inclusive, from as int, false, 0) == (r.0 as int, r.1),
{
    let low_end = after_last_nonzero(low);
    let high_end = after_last_nonzero(high);
    let mut k: usize = from;
    let mut above = false;
    let mut gap: u8 = 0;
    loop
        invariant
            gap <= 2,
            low_end == last_nonzero(low@, low@.len() as int) + 1,
            high_end == last_nonzero(high@, high@.len() as int) + 1,
            shortest_end(x@, low@, high@, inclusive, from as int, false, 0) == shortest_end(
                x@,
                low@,
                high@,
                inclusive,
                k as int,
                above,
                gap as int,
            ),
        decreases x.len() - k,
    {
        if k >= x.len() || k >= low.len() || k >= high.len() {
            return (k, false);
        }
        let dx = x[k];
        let dh = high[k];
        let now_above = above || dx > low[k];
        let now_gap: u8 = if gap == 0 {
            if dx == dh {
                0
            } else if dx as u16 + 1 == dh as u16 {
                1
            } else {
                2
            }
        } else if gap == 1 {
            if dh == 0 && dx == 9 {
                1
            } else {
                2
            }
        } else {
            2
        };
        let down = now_above || (inclusive && low_end <= k + 1);
        let up = now_gap == 2 || (now_gap == 1 && (inclusive || high_end > k + 1));
        if down || up || k + 1 >= x.len() {
            return (k, up && (!down || (k + 1 < x.len() && x[k + 1] >= 5)));
        }
        k += 1;
        above = now_above;
        gap = now_gap;
    }
}

fn cut_digits(s: &Vec<u8>, end: usize, up: bool) -> (r: Vec<u8>)
    ensures
        r@ == cut(s@, end as int, up),
        r@.len() == s@.len(),
{
    let mut out: Vec<u8> = Vec::new();
    let mut k: usize = 0;
    while k < s.len()
        invariant
            k <= s.len(),
            out@.len() == k,
            forall|j: int|
                0 <= j < k ==> out@[j] == (if j <= end {
                    s@[j]
                } else {
                    0u8
                }),
        decreases s.len() - k,
    {
        out.push(
            if k <= end {
                s[k]
            } else {
                0
            },
        );
        k += 1;
    }
    let ghost kept = out@;
    assert(kept =~= Seq::new(
        s@.len(),
        |k: int|
            if k <= end {
                s@[k]
            } else {
                0u8
            },
    ));
    if up {
        let mut n: usize = if end < out.len() {
            end + 1
        } else {
            0
        };
        proof {
            if end >= out.len() {
                assert(bumped(kept, end + 1) == kept);
            }
        }
        while n > 0 && out[n - 1] >= 9
            invariant
                n <= out.len(),
                out@.len() == s@.len(),
                end < s@.len() ==> bumped(kept, end + 1) == bumped(out@, n as int),
                end >= s@.len() ==> n == 0 && out@ == kept,
            decreases n,
        {
            out[n - 1] = 0;
            n -= 1;
        }
        if n > 0 {
            out[n - 1] = out[n - 1] + 1;
        }
    }
    out
}

fn push_digit_chars(out: &mut Vec<char>, s: &Vec<u8>, from: usize, to: usize)
    requires
        from <= to <= s.len(),
    ensures
        final(out)@ == old(out)@ + digit_chars(s@, from as int, to as int),
{
    let mut k: usize = from;
    while k < to
        invariant
            from <= k <= to <= s.len(),
            out@ == old(out)@ + digit_chars(s@, from as int, k as int),
        decreases to - k,
    {
        let d: u8 = 48 + s[k] % 10;
        out.push(d as char);
        assert(out@ =~= old(out)@ + digit_chars(s@, from as int, k + 1));
        k += 1;
    }
}

fn notation_chars(s: &Vec<u8>, point: usize) -> (r: Vec<char>)
    requires
        1 <= point <= s.len(),
    ensures
        r@ == notation(s@, point as int),
{
    let first = first_nonzero(s);
    let start: usize = if first >= point {
        point - 1
    } else {
        first
    };
    let end = after_last_nonzero(s);
    let mut out: Vec<char> = Vec::new();
    push_digit_chars(&mut out, s, start, point);
    if end > point {
        out.push('.');
        push_digit_chars(&mut out, s, point, end);
        assert(out@ =~= digit_chars(s@, start as int, point as int) + seq!['.'] + digit_chars(
            s@,
            point as int,
            end as int,
        ));
    } else {
        assert(out@ =~= digit_chars(s@, start as int, point as int));
    }
    out
}

fn max_of(a: i64, b: i64) -> (r: i64)
    ensures
        r == (if a > b {
            a
        } else {
            b
        }),
{
    if a > b {
        a
    } else {
        b
    }
}

fn shortest_chars(m: u64, scale: i64, field: u64) -> (r: Vec<char>)
    requires
        0 < m < 0x20_0000_0000_0000,
        1 <= scale <= 2047,
    ensures
        r@ == shortest(m, scale as int, field),
{
    let e: i64 = scale - 1077;
    let x = scale_digits(whole_digits(4 * m), e);
    let low = if m == HIDDEN_BIT && field > 1 {
        scale_digits(whole_digits(4 * m - 1), e)
    } else {
        scale_digits(whole_digits(4 * m - 2), e)
    };
    let high = scale_digits(whole_digits(4 * m + 2), e);
    let widest = max_of(max_of(x.point, low.point), high.point);
    let point: i64 = if widest > 0 {
        widest + 1
    } else {
        2
    };
    let a: i64 = (x.digits.len() as i64) + point - x.point;
    let b: i64 = (low.digits.len() as i64) + point - low.point;
    let c: i64 = (high.digits.len() as i64) + point - high.point;
    let longest = max_of(max_of(a, b), c);
    let len: i64 = if longest > point {
        longest
    } else {
        point
    };
    let lx = lay_out(&x, point, len as usize);
    let ll = lay_out(&low, point, len as usize);
    let lh = lay_out(&high, point, len as usize);
    let from = first_nonzero(&lh);
    let (end, up) = find_end(&lx, &ll, &lh, m % 2 == 0, from);
    let digits = cut_digits(&lx, end, up);
    notation_chars(&digits, point as usize)
}

/// The whole number that the positive finite Float `x` stands for, where it
/// is one of fewer than fifty-four bits.
fn whole_number(x: u64) -> (r: Option<u64>)
    ensures
        r == whole_of(x),
{
    let field = float_exponent_field(x);
    if 1023 <= field && field <= 1075 {
        let n = float_significand(x) >> (1075 - field);
        if n < 0x20_0000_0000_0000 && float_from_int(n as i64) == x {
            Some(n)
        } else {
            None
        }
    } else {
        None
    }
}

/// How a Float is written.
pub fn render_float(x: u64) -> (r: Vec<char>)
    ensures
        r@ == float_text(x),
{
    if float_is_nan(x) {
        chars_of("NaN")
    } else if float_is_infinite(x) {
        if float_is_negative(x) {
            chars_of("-inf")
        } else {
            chars_of("inf")
        }
    } else if float_is_zero(x) {
        if float_is_negative(x) {
            chars_of("-0")
        } else {
            chars_of("0")
        }
    } else {
        let m = float_significand(x);
        if m == 0 {
            return chars_of("0");
        }
        let digits = match whole_number(float_magnitude(x)) {
            Some(n) => {
                let mut text: Vec<char> = Vec::new();
                push_decimal(&mut text, n);
                assert(text@ =~= decimal_text(n as nat));
                text
            },
            None => shortest_chars(m, float_scale(x), float_exponent_field(x)),
        };
        if float_is_negative(x) {
            let mut out = chars_of("-");
            append_chars(&mut out, &digits);
            out
        } else {
            digits
        }
    }
}

} // verus!
