//! Half-precision scales, widened to single precision.
//!
//! Scales are carried as bit patterns; nothing here computes with them.

use vstd::arithmetic::power2::{
    lemma2_to64, lemma_pow2_adds, lemma_pow2_pos, lemma_pow2_strictly_increases,
    lemma_pow2_unfold, pow2,
};
use vstd::prelude::*;

use burn::tensor::{DType, TensorData};

verus! {

/// Position of the highest set bit of `m`.
pub open spec fn top_bit(m: int) -> int
    decreases m,
{
    if m <= 1 {
        0
    } else {
        1 + top_bit(m / 2)
    }
}

/// The single-precision bit pattern of the half-precision number with the bit
/// pattern `half`: the same number, infinity for infinity, and a quiet NaN
/// with the leading payload bits for a NaN.
pub open spec fn single_of_half(half: u16) -> u32 {
    let sign = (half as int / 0x8000) * 0x8000_0000;
    let exponent = half as int / 0x400 % 0x20;
    let mantissa = half as int % 0x400;
    (sign + if exponent == 0x1f {
        if mantissa == 0 {
            0x7f80_0000
        } else {
            0x7fc0_0000 + (mantissa % 0x200) * 0x2000
        }
    } else if exponent > 0 {
        (exponent + 112) * 0x80_0000 + mantissa * 0x2000
    } else if mantissa == 0 {
        0
    } else {
        let top = top_bit(mantissa);
        (top + 103) * 0x80_0000 + (mantissa * vstd::arithmetic::power2::pow2((23 - top) as nat)
            - 0x80_0000)
    }) as u32
}

/// Widens half-precision bit patterns to single precision, with
/// `burn::tensor::TensorData::convert_dtype` from `DType::F16` to `DType::F32`.
///
/// Claimed of it: the result has one bit pattern for each of the given ones, in
/// order, and each is that of the same number in single precision.
#[verifier::external_body]
fn convert_halves(halves: &Vec<u16>) -> (singles: Vec<u32>)
    requires
        halves@.len() > 0,
    ensures
        singles@ == Seq::new(halves@.len(), |i: int| single_of_half(halves@[i])),
{
    let raw: Vec<u8> = halves.iter().flat_map(|half| half.to_ne_bytes()).collect();
    let wide = TensorData::from_bytes_vec(raw, [halves.len()], DType::F16).convert_dtype(DType::F32);
    wide.as_bytes().chunks_exact(4).map(|c| u32::from_ne_bytes([c[0], c[1], c[2], c[3]])).collect()
}

/// Widens half-precision bit patterns to single precision.
pub fn widen_halves(halves: &Vec<u16>) -> (singles: Vec<u32>)
    ensures
        singles@ == Seq::new(halves@.len(), |i: int| single_of_half(halves@[i])),
{
    if halves.len() == 0 {
        let singles: Vec<u32> = Vec::new();
        assert(singles@ =~= Seq::new(halves@.len(), |i: int| single_of_half(halves@[i])));
        singles
    } else {
        convert_halves(halves)
    }
}

/// The finite half-precision number with this bit pattern, without its sign, in
/// units of the smallest one.
pub open spec fn half_units(half: u16) -> int {
    let exponent = half as int / 0x400 % 0x20;
    let mantissa = half as int % 0x400;
    if exponent == 0 {
        mantissa
    } else {
        (0x400 + mantissa) * pow2((exponent - 1) as nat)
    }
}

/// The finite single-precision number with this bit pattern, without its sign, in
/// units of the smallest one.
pub open spec fn single_units(single: u32) -> int {
    let exponent = single as int / 0x80_0000 % 0x100;
    let mantissa = single as int % 0x80_0000;
    if exponent == 0 {
        mantissa
    } else {
        (0x80_0000 + mantissa) * pow2((exponent - 1) as nat)
    }
}

/// The highest set bit of a number is the largest power of two in it.
proof fn lemma_top_bit(m: int)
    requires
        m >= 1,
    ensures
        0 <= top_bit(m),
        pow2(top_bit(m) as nat) <= m < 2 * pow2(top_bit(m) as nat),
    decreases m,
{
    lemma2_to64();
    if m > 1 {
        lemma_top_bit(m / 2);
        lemma_pow2_unfold(top_bit(m) as nat);
    }
}

/// The parts of a single-precision bit pattern.
proof fn lemma_single_parts(sign: int, exponent: int, mantissa: int)
    requires
        0 <= sign < 2,
        0 <= exponent < 0x100,
        0 <= mantissa < 0x80_0000,
    ensures
        ({
            let single = sign * 0x8000_0000 + exponent * 0x80_0000 + mantissa;
            &&& 0 <= single <= u32::MAX
            &&& single / 0x8000_0000 == sign
            &&& single / 0x80_0000 % 0x100 == exponent
            &&& single % 0x80_0000 == mantissa
        }),
{
    let single = sign * 0x8000_0000 + exponent * 0x80_0000 + mantissa;
    let high = sign * 0x100 + exponent;
    assert(single == high * 0x80_0000 + mantissa);
    assert(single / 0x80_0000 == high && single % 0x80_0000 == mantissa);
    assert(high % 0x100 == exponent);
}

/// Widening keeps a number below the normal range.
proof fn lemma_subnormal(half: u16)
    requires
        half as int / 0x400 % 0x20 == 0,
        half as int % 0x400 > 0,
    ensures
        single_of_half(half) as int / 0x8000_0000 == half as int / 0x8000,
        single_units(single_of_half(half)) == half_units(half) * pow2(125),
        single_of_half(half) as int / 0x80_0000 % 0x100 < 0xff,
{
    let m = half as int % 0x400;
    let top = top_bit(m);
    lemma_top_bit(m);
    lemma2_to64();
    assert(top < 10) by {
        if top >= 10 {
            lemma_powers_grow(10, top as nat);
        }
    }
    let shift = pow2((23 - top) as nat) as int;
    lemma_pow2_adds(top as nat, (23 - top) as nat);
    lemma_pow2_pos((23 - top) as nat);
    assert(0x80_0000 <= m * shift && m * shift < 0x100_0000) by (nonlinear_arith)
        requires
            pow2(top as nat) <= m,
            m < 2 * pow2(top as nat),
            pow2(top as nat) * shift == 0x80_0000,
            shift > 0,
    ;
    lemma_single_parts(half as int / 0x8000, top + 103, m * shift - 0x80_0000);
    lemma_pow2_adds((23 - top) as nat, (top + 102) as nat);
    assert(m * shift * pow2((top + 102) as nat) == m * (shift * pow2((top + 102) as nat)))
        by (nonlinear_arith);
}

/// A larger exponent makes no smaller power.
proof fn lemma_powers_grow(a: nat, b: nat)
    requires
        a <= b,
    ensures
        pow2(a) <= pow2(b),
{
    if a < b {
        lemma_pow2_strictly_increases(a, b);
    }
}

/// Widening keeps a number in the normal range.
proof fn lemma_normal(half: u16)
    requires
        0 < half as int / 0x400 % 0x20 < 0x1f,
    ensures
        single_of_half(half) as int / 0x8000_0000 == half as int / 0x8000,
        single_units(single_of_half(half)) == half_units(half) * pow2(125),
        single_of_half(half) as int / 0x80_0000 % 0x100 < 0xff,
{
    let e = half as int / 0x400 % 0x20;
    let m = half as int % 0x400;
    lemma_single_parts(half as int / 0x8000, e + 112, m * 0x2000);
    lemma2_to64();
    let low = pow2((e - 1) as nat) as int;
    lemma_pow2_adds(13, (e + 111) as nat);
    lemma_pow2_adds((e - 1) as nat, 125);
    let high = pow2((e + 111) as nat) as int;
    assert((0x80_0000 + m * 0x2000) * high == (0x400 + m) * (0x2000 * high)) by (nonlinear_arith);
    assert((0x400 + m) * (low * pow2(125)) == (0x400 + m) * low * pow2(125)) by (nonlinear_arith);
}

/// Widening a scale keeps its sign and, where it is finite, its number: the
/// smallest half-precision number is as large as 2 to the 125th of the smallest
/// single-precision ones. What is infinite stays so, and what is no number stays
/// none.
pub proof fn law_widening_keeps_the_number(half: u16)
    ensures
        ({
            let single = single_of_half(half);
            let finite = half as int / 0x400 % 0x20 != 0x1f;
            &&& single as int / 0x8000_0000 == half as int / 0x8000
            &&& finite ==> single_units(single) == half_units(half) * pow2(125)
            &&& finite <==> single as int / 0x80_0000 % 0x100 != 0xff
            &&& !finite ==> (single as int % 0x80_0000 == 0 <==> half as int % 0x400 == 0)
        }),
{
    let e = half as int / 0x400 % 0x20;
    let m = half as int % 0x400;
    let sign = half as int / 0x8000;
    if e == 0x1f {
        if m == 0 {
            lemma_single_parts(sign, 0xff, 0);
        } else {
            lemma_single_parts(sign, 0xff, 0x40_0000 + m % 0x200 * 0x2000);
        }
    } else if e > 0 {
        lemma_normal(half);
    } else if m > 0 {
        lemma_subnormal(half);
    } else {
        lemma_single_parts(sign, 0, 0);
        assert(0 * pow2(125) == 0) by (nonlinear_arith);
    }
}

} // verus!
