//! Repacking loses nothing: what the planes of a weight say of a value is what
//! the raw stream says of it.

use vstd::prelude::*;

use crate::blocks::{
    half_plane, law_half_plane_keeps_halves, law_plane_keeps_bytes, plane, stream_byte,
};
use crate::formats::{
    bit, nibble, q4_0_packed, q4_0_raw, q4_k_packed, q4_k_raw, q5_0_packed, q5_0_raw, q5_k_packed, q5_k_raw,
    q6_k_packed, q6_k_raw, q8_0_packed, q8_0_raw, singles, six_bit_min, six_bit_scale,
    two_bits,
};
use crate::halves::single_of_half;

verus! {

/// Every value of a repacked Q4_0 stream reads as it does in the raw stream.
pub proof fn law_q4_0_reads_back(data: Seq<u8>, i: int)
    requires
        0 <= i < data.len() / 18 * 32,
    ensures
        q4_0_packed(plane(data, 18, 2, 4), singles(half_plane(data, 18, 0, 1)), i) == q4_0_raw(
            data,
            i,
        ),
{
    let block = i / 32;
    law_plane_keeps_bytes(data, 18, 2, 4, block, i % 32 % 16);
    law_half_plane_keeps_halves(data, 18, 0, 1, block, 0);
}

/// Every value of a repacked Q5_0 stream reads as it does in the raw stream.
pub proof fn law_q5_0_reads_back(data: Seq<u8>, i: int)
    requires
        0 <= i < data.len() / 22 * 32,
    ensures
        q5_0_packed(
            plane(data, 22, 6, 4),
            plane(data, 22, 2, 1),
            singles(half_plane(data, 22, 0, 1)),
            i,
        ) == q5_0_raw(data, i),
{
    let block = i / 32;
    law_plane_keeps_bytes(data, 22, 6, 4, block, i % 32 % 16);
    law_plane_keeps_bytes(data, 22, 2, 1, block, i % 32 / 8);
    law_half_plane_keeps_halves(data, 22, 0, 1, block, 0);
}

/// Every value of a repacked Q8_0 stream reads as it does in the raw stream.
pub proof fn law_q8_0_reads_back(data: Seq<u8>, i: int)
    requires
        0 <= i < data.len() / 34 * 32,
    ensures
        q8_0_packed(plane(data, 34, 2, 8), singles(half_plane(data, 34, 0, 1)), i) == q8_0_raw(
            data,
            i,
        ),
{
    let block = i / 32;
    law_plane_keeps_bytes(data, 34, 2, 8, block, i % 32);
    law_half_plane_keeps_halves(data, 34, 0, 1, block, 0);
}

/// The 12 scale bytes of a superblock survive repacking.
proof fn lemma_scale_bytes(data: Seq<u8>, bytes: int, sb: int, j: int)
    requires
        bytes >= 16,
        0 <= sb < data.len() as int / bytes,
        0 <= j < 8,
    ensures
        six_bit_scale(|t: int| stream_byte(plane(data, bytes, 4, 3), sb * 12 + t), j)
            == six_bit_scale(|t: int| data[sb * bytes + 4 + t] as int, j),
        six_bit_min(|t: int| stream_byte(plane(data, bytes, 4, 3), sb * 12 + t), j) == six_bit_min(
            |t: int| data[sb * bytes + 4 + t] as int,
            j,
        ),
{
    if j < 4 {
        law_plane_keeps_bytes(data, bytes, 4, 3, sb, j);
        law_plane_keeps_bytes(data, bytes, 4, 3, sb, j + 4);
    } else {
        law_plane_keeps_bytes(data, bytes, 4, 3, sb, j - 4);
        law_plane_keeps_bytes(data, bytes, 4, 3, sb, j);
        law_plane_keeps_bytes(data, bytes, 4, 3, sb, j + 4);
    }
}

/// Every value of a repacked Q4_K stream reads as it does in the raw stream.
pub proof fn law_q4_k_reads_back(data: Seq<u8>, i: int)
    requires
        0 <= i < data.len() / 144 * 256,
    ensures
        q4_k_packed(
            plane(data, 144, 16, 32),
            singles(half_plane(data, 144, 0, 2)),
            plane(data, 144, 4, 3),
            i,
        ) == q4_k_raw(data, i),
{
    let sb = i / 256;
    let r = i % 256;
    law_plane_keeps_bytes(data, 144, 16, 32, sb, r / 64 * 32 + r % 32);
    law_half_plane_keeps_halves(data, 144, 0, 2, sb, 0);
    law_half_plane_keeps_halves(data, 144, 0, 2, sb, 1);
    lemma_scale_bytes(data, 144, sb, r / 32);
}

/// Every value of a repacked Q5_K stream reads as it does in the raw stream.
pub proof fn law_q5_k_reads_back(data: Seq<u8>, i: int)
    requires
        0 <= i < data.len() / 176 * 256,
    ensures
        q5_k_packed(
            plane(data, 176, 48, 32),
            plane(data, 176, 16, 8),
            singles(half_plane(data, 176, 0, 2)),
            plane(data, 176, 4, 3),
            i,
        ) == q5_k_raw(data, i),
{
    let sb = i / 256;
    let r = i % 256;
    law_plane_keeps_bytes(data, 176, 48, 32, sb, r / 64 * 32 + r % 32);
    law_plane_keeps_bytes(data, 176, 16, 8, sb, r % 32);
    law_half_plane_keeps_halves(data, 176, 0, 2, sb, 0);
    law_half_plane_keeps_halves(data, 176, 0, 2, sb, 1);
    lemma_scale_bytes(data, 176, sb, r / 32);
}

/// Every value of a repacked Q6_K stream reads as it does in the raw stream.
pub proof fn law_q6_k_reads_back(data: Seq<u8>, i: int)
    requires
        0 <= i < data.len() / 210 * 256,
    ensures
        q6_k_packed(
            plane(data, 210, 0, 32),
            plane(data, 210, 128, 16),
            plane(data, 210, 192, 4),
            singles(half_plane(data, 210, 208, 1)),
            i,
        ) == q6_k_raw(data, i),
{
    let sb = i / 256;
    let r = i % 256;
    let half = r / 128;
    let t = r % 128 / 32;
    let l = r % 32;
    law_plane_keeps_bytes(data, 210, 0, 32, sb, half * 64 + t % 2 * 32 + l);
    law_plane_keeps_bytes(data, 210, 128, 16, sb, half * 32 + l);
    law_plane_keeps_bytes(data, 210, 192, 4, sb, half * 8 + l / 16 + 2 * t);
    law_half_plane_keeps_halves(data, 210, 208, 1, sb, 0);
}

/// The half-precision number in two neighbouring bytes, the low one first, in
/// single precision.
pub open spec fn scale_in(low: u8, high: u8) -> u32 {
    single_of_half((low + 256 * high) as u16)
}

/// The bits of a byte, by division.
#[verifier::spinoff_prover]
#[verifier::rlimit(40)]
proof fn lemma_bits_by_division(byte: int)
    requires
        0 <= byte < 256,
    ensures
        bit(byte, 0) == byte % 2,
        bit(byte, 1) == byte / 2 % 2,
        bit(byte, 2) == byte / 4 % 2,
        bit(byte, 3) == byte / 8 % 2,
        bit(byte, 4) == byte / 16 % 2,
        bit(byte, 5) == byte / 32 % 2,
        bit(byte, 6) == byte / 64 % 2,
        bit(byte, 7) == byte / 128 % 2,
        two_bits(byte, 0) == byte % 4,
        two_bits(byte, 1) == byte / 4 % 4,
        two_bits(byte, 2) == byte / 16 % 4,
        two_bits(byte, 3) == byte / 64 % 4,
{
    vstd::arithmetic::power2::lemma2_to64();
    assert(byte / 1 == byte);
}

/// A byte is the sum of its bits.
#[verifier::spinoff_prover]
#[verifier::rlimit(40)]
proof fn lemma_bits_make_up_a_byte(byte: u8)
    ensures
        byte == bit(byte as int, 0) + 2 * bit(byte as int, 1) + 4 * bit(byte as int, 2) + 8 * bit(
            byte as int,
            3,
        ) + 16 * bit(byte as int, 4) + 32 * bit(byte as int, 5) + 64 * bit(byte as int, 6) + 128
            * bit(byte as int, 7),
        byte == two_bits(byte as int, 0) + 4 * two_bits(byte as int, 1) + 16 * two_bits(
            byte as int,
            2,
        ) + 64 * two_bits(byte as int, 3),
{
    lemma_bits_by_division(byte as int);
    assert(byte == byte % 2 + 2 * (byte / 2 % 2) + 4 * (byte / 4 % 2) + 8 * (byte / 8 % 2) + 16 * (
    byte / 16 % 2) + 32 * (byte / 32 % 2) + 64 * (byte / 64 % 2) + 128 * (byte / 128 % 2))
        by (bit_vector);
    assert(byte == byte % 4 + 4 * (byte / 4 % 4) + 16 * (byte / 16 % 4) + 64 * (byte / 64 % 4))
        by (bit_vector);
}

/// A bit is 0 or 1, and two bits are a number below 4.
#[verifier::spinoff_prover]
#[verifier::rlimit(40)]
proof fn lemma_bit_bounds(byte: int, at: int)
    ensures
        0 <= bit(byte, at) < 2,
        0 <= two_bits(byte, at) < 4,
{
    vstd::arithmetic::div_mod::lemma_mod_bound(
        byte / (vstd::arithmetic::power2::pow2(at as nat) as int),
        2,
    );
    vstd::arithmetic::div_mod::lemma_mod_bound(
        byte / (vstd::arithmetic::power2::pow2((2 * at) as nat) as int),
        4,
    );
}

/// A number of four bits with more above it comes apart.
#[verifier::spinoff_prover]
#[verifier::rlimit(40)]
proof fn lemma_low_and_high(low: int, high: int)
    requires
        0 <= low < 16,
    ensures
        (low + 16 * high) % 16 == low,
        (low + 16 * high) / 16 == high,
{
}

/// The 32 values of a Q4_0 block make up its bytes: byte `j` behind the scale is
/// value `j` in the low half and value `j + 16` in the high half, each plus 8. All
/// values of a block share the scale in its first two bytes.
#[verifier::spinoff_prover]
#[verifier::rlimit(40)]
pub proof fn law_q4_0_values_make_up_the_block(data: Seq<u8>, b: int, j: int)
    requires
        0 <= b < data.len() / 18,
        0 <= j < 16,
    ensures
        ({
            let (lo, hi) = (q4_0_raw(data, 32 * b + j), q4_0_raw(data, 32 * b + 16 + j));
            &&& -8 <= lo.q < 8
            &&& -8 <= hi.q < 8
            &&& data[18 * b + 2 + j] == (lo.q + 8) + 16 * (hi.q + 8)
            &&& lo.scale == scale_in(data[18 * b], data[18 * b + 1])
            &&& hi.scale == scale_in(data[18 * b], data[18 * b + 1])
        }),
{
    assert((32 * b + j) / 32 == b && (32 * b + 16 + j) / 32 == b);
    assert((32 * b + j) % 32 == j && (32 * b + 16 + j) % 32 == 16 + j);
}

/// The 32 values of a Q8_0 block are its bytes behind the scale, as signed
/// numbers. All values of a block share the scale in its first two bytes.
#[verifier::spinoff_prover]
#[verifier::rlimit(40)]
pub proof fn law_q8_0_values_make_up_the_block(data: Seq<u8>, b: int, j: int)
    requires
        0 <= b < data.len() / 34,
        0 <= j < 32,
    ensures
        ({
            let value = q8_0_raw(data, 32 * b + j);
            &&& -128 <= value.q < 128
            &&& (value.q + 256) % 256 == data[34 * b + 2 + j]
            &&& value.scale == scale_in(data[34 * b], data[34 * b + 1])
        }),
{
    assert((32 * b + j) / 32 == b && (32 * b + j) % 32 == j);
}

/// One value of a Q5_0 block.
#[verifier::spinoff_prover]
#[verifier::rlimit(40)]
proof fn lemma_q5_0_value(data: Seq<u8>, b: int, i: int)
    requires
        0 <= b < data.len() / 22,
        0 <= i < 32,
    ensures
        ({
            let value = q5_0_raw(data, 32 * b + i);
            &&& 0 <= bit(data[22 * b + 2 + i / 8] as int, i % 8) < 2
            &&& value.q + 16 == nibble(data[22 * b + 6 + i % 16] as int, i >= 16) + 16 * bit(
                data[22 * b + 2 + i / 8] as int,
                i % 8,
            )
            &&& value.scale == scale_in(data[22 * b], data[22 * b + 1])
        }),
{
    assert((32 * b + i) / 32 == b && (32 * b + i) % 32 == i);
    lemma_bit_bounds(data[22 * b + 2 + i / 8] as int, i % 8);
}

/// The low four bits of one value of a Q5_0 block.
#[verifier::spinoff_prover]
#[verifier::rlimit(40)]
proof fn lemma_q5_0_low(data: Seq<u8>, b: int, i: int)
    requires
        0 <= b < data.len() / 22,
        0 <= i < 32,
    ensures
        ({
            let value = q5_0_raw(data, 32 * b + i);
            &&& -16 <= value.q < 16
            &&& (value.q + 16) % 16 == nibble(data[22 * b + 6 + i % 16] as int, i >= 16)
            &&& value.scale == scale_in(data[22 * b], data[22 * b + 1])
        }),
{
    lemma_q5_0_value(data, b, i);
    let low = nibble(data[22 * b + 6 + i % 16] as int, i >= 16);
    assert(0 <= low < 16);
    lemma_low_and_high(low, bit(data[22 * b + 2 + i / 8] as int, i % 8));
}

/// The high bit of one of eight neighbours in a Q5_0 block.
#[verifier::spinoff_prover]
#[verifier::rlimit(40)]
proof fn lemma_q5_0_high(data: Seq<u8>, b: int, t: int, s: int)
    requires
        0 <= b < data.len() / 22,
        0 <= t < 4,
        0 <= s < 8,
    ensures
        (q5_0_raw(data, 32 * b + (8 * t + s)).q + 16) / 16 == bit(data[22 * b + 2 + t] as int, s),
{
    let i = 8 * t + s;
    assert(i / 8 == t && i % 8 == s);
    lemma_q5_0_value(data, b, i);
    let low = nibble(data[22 * b + 6 + i % 16] as int, i >= 16);
    assert(0 <= low < 16);
    lemma_low_and_high(low, bit(data[22 * b + 2 + t] as int, s));
}

/// The 32 values of a Q5_0 block, each plus 16, are numbers of five bits. The low
/// four of values `j` and `j + 16` make up byte `j` behind the four bytes of high
/// bits. All values of a block share the scale in its first two bytes.
#[verifier::spinoff_prover]
#[verifier::rlimit(40)]
pub proof fn law_q5_0_values_make_up_the_block(data: Seq<u8>, b: int, j: int)
    requires
        0 <= b < data.len() / 22,
        0 <= j < 16,
    ensures
        ({
            let (lo, hi) = (q5_0_raw(data, 32 * b + j), q5_0_raw(data, 32 * b + (16 + j)));
            &&& -16 <= lo.q < 16
            &&& -16 <= hi.q < 16
            &&& data[22 * b + 6 + j] == (lo.q + 16) % 16 + 16 * ((hi.q + 16) % 16)
            &&& lo.scale == scale_in(data[22 * b], data[22 * b + 1])
            &&& hi.scale == scale_in(data[22 * b], data[22 * b + 1])
        }),
{
    lemma_q5_0_low(data, b, j);
    lemma_q5_0_low(data, b, 16 + j);
    let packed = data[22 * b + 6 + j] as int;
    assert(j % 16 == j && (16 + j) % 16 == j);
    lemma_low_and_high(packed % 16, packed / 16);
}

/// The high bits of eight neighbouring values of a Q5_0 block make up one of the
/// four bytes behind its scale.
#[verifier::spinoff_prover]
#[verifier::rlimit(40)]
pub proof fn law_q5_0_high_bits_make_up_the_block(data: Seq<u8>, b: int, t: int)
    requires
        0 <= b < data.len() / 22,
        0 <= t < 4,
    ensures
        ({
            let high = |s: int| (q5_0_raw(data, 32 * b + (8 * t + s)).q + 16) / 16;
            data[22 * b + 2 + t] == high(0) + 2 * high(1) + 4 * high(2) + 8 * high(3) + 16 * high(4)
                + 32 * high(5) + 64 * high(6) + 128 * high(7)
        }),
{
    lemma_bits_make_up_a_byte(data[22 * b + 2 + t]);
    lemma_q5_0_high(data, b, t, 0);
    lemma_q5_0_high(data, b, t, 1);
    lemma_q5_0_high(data, b, t, 2);
    lemma_q5_0_high(data, b, t, 3);
    lemma_q5_0_high(data, b, t, 4);
    lemma_q5_0_high(data, b, t, 5);
    lemma_q5_0_high(data, b, t, 6);
    lemma_q5_0_high(data, b, t, 7);
}

/// The scales and minima of the eight sub-blocks of a superblock are numbers of
/// six bits that make up its 12 scale bytes: those of the first four stand in the
/// low six bits of the first eight bytes, and those of the last four are spread
/// over the top bits there and the last four bytes.
#[verifier::spinoff_prover]
#[verifier::rlimit(40)]
proof fn lemma_six_bits_make_up_the_scales(bytes: spec_fn(int) -> int, j: int)
    requires
        0 <= j < 4,
        0 <= bytes(j) < 256,
        0 <= bytes(j + 4) < 256,
        0 <= bytes(j + 8) < 256,
    ensures
        0 <= six_bit_scale(bytes, j) < 64,
        0 <= six_bit_scale(bytes, j + 4) < 64,
        0 <= six_bit_min(bytes, j) < 64,
        0 <= six_bit_min(bytes, j + 4) < 64,
        bytes(j) == six_bit_scale(bytes, j) + 64 * (six_bit_scale(bytes, j + 4) / 16),
        bytes(j + 4) == six_bit_min(bytes, j) + 64 * (six_bit_min(bytes, j + 4) / 16),
        bytes(j + 8) == six_bit_scale(bytes, j + 4) % 16 + 16 * (six_bit_min(bytes, j + 4) % 16),
{
}

/// The scales and minima of two sub-blocks that lie four apart, where they stand
/// in a stream.
spec fn scales_stand(
    data: Seq<u8>,
    at: int,
    j: int,
    one_sc: int,
    one_mn: int,
    two_sc: int,
    two_mn: int,
) -> bool {
    &&& 0 <= one_sc < 64 && 0 <= one_mn < 64 && 0 <= two_sc < 64 && 0 <= two_mn < 64
    &&& data[at + j] == one_sc + 64 * (two_sc / 16)
    &&& data[at + 4 + j] == one_mn + 64 * (two_mn / 16)
    &&& data[at + 8 + j] == two_sc % 16 + 16 * (two_mn % 16)
}

/// The scale bytes of a superblock from byte `at`.
#[verifier::spinoff_prover]
#[verifier::rlimit(40)]
proof fn lemma_scales_stand(data: Seq<u8>, at: int, j: int)
    requires
        0 <= at,
        at + 12 <= data.len(),
        0 <= j < 4,
    ensures
        ({
            let bytes = |t: int| data[at + t] as int;
            scales_stand(
                data,
                at,
                j,
                six_bit_scale(bytes, j),
                six_bit_min(bytes, j),
                six_bit_scale(bytes, j + 4),
                six_bit_min(bytes, j + 4),
            )
        }),
{
    lemma_six_bits_make_up_the_scales(|t: int| data[at + t] as int, j);
}

/// One value of a Q4_K superblock.
#[verifier::spinoff_prover]
#[verifier::rlimit(40)]
proof fn lemma_q4_k_value(data: Seq<u8>, b: int, r: int)
    requires
        0 <= b < data.len() / 144,
        0 <= r < 256,
    ensures
        ({
            let at = 144 * b;
            let bytes = |t: int| data[at + 4 + t] as int;
            let value = q4_k_raw(data, 256 * b + r);
            &&& value.q == nibble(data[at + 16 + r / 64 * 32 + r % 32] as int, r / 32 % 2 == 1)
            &&& value.q < 16
            &&& value.sc == six_bit_scale(bytes, r / 32) as u32
            &&& value.mn == six_bit_min(bytes, r / 32) as u32
            &&& value.d == scale_in(data[at], data[at + 1])
            &&& value.dmin == scale_in(data[at + 2], data[at + 3])
        }),
{
    assert((256 * b + r) / 256 == b && (256 * b + r) % 256 == r);
    let at = 144 * b;
    assert(six_bit_scale(|t: int| data[b * 144 + 4 + t] as int, r / 32) == six_bit_scale(
        |t: int| data[at + 4 + t] as int,
        r / 32,
    ));
    assert(six_bit_min(|t: int| data[b * 144 + 4 + t] as int, r / 32) == six_bit_min(
        |t: int| data[at + 4 + t] as int,
        r / 32,
    ));
}

/// One value of a Q5_K superblock.
#[verifier::spinoff_prover]
#[verifier::rlimit(40)]
proof fn lemma_q5_k_value(data: Seq<u8>, b: int, r: int)
    requires
        0 <= b < data.len() / 176,
        0 <= r < 256,
    ensures
        ({
            let at = 176 * b;
            let bytes = |t: int| data[at + 4 + t] as int;
            let value = q5_k_raw(data, 256 * b + r);
            let low = nibble(data[at + 48 + r / 64 * 32 + r % 32] as int, r / 32 % 2 == 1);
            let high = bit(data[at + 16 + r % 32] as int, r / 32);
            &&& 0 <= low < 16
            &&& 0 <= high < 2
            &&& value.q == low + 16 * high
            &&& value.sc == six_bit_scale(bytes, r / 32) as u32
            &&& value.mn == six_bit_min(bytes, r / 32) as u32
            &&& value.d == scale_in(data[at], data[at + 1])
            &&& value.dmin == scale_in(data[at + 2], data[at + 3])
        }),
{
    assert((256 * b + r) / 256 == b && (256 * b + r) % 256 == r);
    let at = 176 * b;
    lemma_bit_bounds(data[at + 16 + r % 32] as int, r / 32);
    assert(six_bit_scale(|t: int| data[b * 176 + 4 + t] as int, r / 32) == six_bit_scale(
        |t: int| data[at + 4 + t] as int,
        r / 32,
    ));
    assert(six_bit_min(|t: int| data[b * 176 + 4 + t] as int, r / 32) == six_bit_min(
        |t: int| data[at + 4 + t] as int,
        r / 32,
    ));
}

/// The low four bits of one value of a Q5_K superblock.
#[verifier::spinoff_prover]
#[verifier::rlimit(40)]
proof fn lemma_q5_k_low(data: Seq<u8>, b: int, r: int)
    requires
        0 <= b < data.len() / 176,
        0 <= r < 256,
    ensures
        ({
            let value = q5_k_raw(data, 256 * b + r);
            &&& value.q < 32
            &&& value.q as int % 16 == nibble(
                data[176 * b + 48 + r / 64 * 32 + r % 32] as int,
                r / 32 % 2 == 1,
            )
        }),
{
    lemma_q5_k_value(data, b, r);
    let low = nibble(data[176 * b + 48 + r / 64 * 32 + r % 32] as int, r / 32 % 2 == 1);
    lemma_low_and_high(low, bit(data[176 * b + 16 + r % 32] as int, r / 32));
}

/// The fifth bit of a value of a Q5_K superblock.
#[verifier::spinoff_prover]
#[verifier::rlimit(40)]
proof fn lemma_q5_k_high(data: Seq<u8>, b: int, s: int, l: int)
    requires
        0 <= b < data.len() / 176,
        0 <= s < 8,
        0 <= l < 32,
    ensures
        q5_k_raw(data, 256 * b + (32 * s + l)).q as int / 16 == bit(
            data[176 * b + 16 + l] as int,
            s,
        ),
{
    let r = 32 * s + l;
    assert(r / 32 == s && r % 32 == l);
    lemma_q5_k_value(data, b, r);
    let low = nibble(data[176 * b + 48 + r / 64 * 32 + r % 32] as int, r / 32 % 2 == 1);
    lemma_low_and_high(low, bit(data[176 * b + 16 + l] as int, s));
}

/// The values of a Q4_K superblock make up its bytes: in each run of 64, value `l`
/// and value `l + 32` share a byte.
#[verifier::spinoff_prover]
#[verifier::rlimit(40)]
pub proof fn law_q4_k_values_make_up_the_block(data: Seq<u8>, b: int, c: int, l: int)
    requires
        0 <= b < data.len() / 144,
        0 <= c < 4,
        0 <= l < 32,
    ensures
        ({
            let (lo, hi) = (
                q4_k_raw(data, 256 * b + (64 * c + l)),
                q4_k_raw(data, 256 * b + (64 * c + 32 + l)),
            );
            &&& lo.q < 16
            &&& hi.q < 16
            &&& data[144 * b + 16 + 32 * c + l] == lo.q + 16 * hi.q
        }),
{
    let (lo, hi) = (64 * c + l, 64 * c + 32 + l);
    assert(lo / 64 == c && lo % 32 == l && lo / 32 == 2 * c && 2 * c % 2 == 0);
    assert(hi / 64 == c && hi % 32 == l && hi / 32 == 2 * c + 1 && (2 * c + 1) % 2 == 1);
    lemma_q4_k_value(data, b, lo);
    lemma_q4_k_value(data, b, hi);
    let packed = data[144 * b + 16 + c * 32 + l] as int;
    lemma_low_and_high(packed % 16, packed / 16);
}

/// The scales and minima of the eight sub-blocks of 32 of a Q4_K superblock make
/// up its 12 scale bytes. The two half-precision scales come first.
#[verifier::spinoff_prover]
#[verifier::rlimit(40)]
pub proof fn law_q4_k_scales_make_up_the_block(data: Seq<u8>, b: int, l: int, j: int)
    requires
        0 <= b < data.len() / 144,
        0 <= l < 32,
        0 <= j < 4,
    ensures
        ({
            let at = 144 * b;
            let (one, two) = (
                q4_k_raw(data, 256 * b + (32 * j + l)),
                q4_k_raw(data, 256 * b + (32 * (j + 4) + l)),
            );
            &&& one.sc < 64 && one.mn < 64 && two.sc < 64 && two.mn < 64
            &&& data[at + 4 + j] == one.sc + 64 * (two.sc / 16)
            &&& data[at + 8 + j] == one.mn + 64 * (two.mn / 16)
            &&& data[at + 12 + j] == two.sc % 16 + 16 * (two.mn % 16)
            &&& one.d == scale_in(data[at], data[at + 1])
            &&& two.d == scale_in(data[at], data[at + 1])
            &&& one.dmin == scale_in(data[at + 2], data[at + 3])
            &&& two.dmin == scale_in(data[at + 2], data[at + 3])
        }),
{
    assert((32 * j + l) / 32 == j && (32 * (j + 4) + l) / 32 == j + 4);
    lemma_q4_k_value(data, b, 32 * j + l);
    lemma_q4_k_value(data, b, 32 * (j + 4) + l);
    lemma_scales_stand(data, 144 * b + 4, j);
}

/// The values of a Q5_K superblock are numbers of five bits. Their low four make
/// up bytes as those of Q4_K do.
#[verifier::spinoff_prover]
#[verifier::rlimit(40)]
pub proof fn law_q5_k_values_make_up_the_block(data: Seq<u8>, b: int, c: int, l: int)
    requires
        0 <= b < data.len() / 176,
        0 <= c < 4,
        0 <= l < 32,
    ensures
        ({
            let (lo, hi) = (
                q5_k_raw(data, 256 * b + (64 * c + l)),
                q5_k_raw(data, 256 * b + (64 * c + 32 + l)),
            );
            &&& lo.q < 32
            &&& hi.q < 32
            &&& data[176 * b + 48 + 32 * c + l] == lo.q as int % 16 + 16 * (hi.q as int % 16)
        }),
{
    let (lo, hi) = (64 * c + l, 64 * c + 32 + l);
    assert(lo / 64 == c && lo % 32 == l && lo / 32 == 2 * c && 2 * c % 2 == 0);
    assert(hi / 64 == c && hi % 32 == l && hi / 32 == 2 * c + 1 && (2 * c + 1) % 2 == 1);
    lemma_q5_k_low(data, b, lo);
    lemma_q5_k_low(data, b, hi);
    let packed = data[176 * b + 48 + c * 32 + l] as int;
    lemma_low_and_high(packed % 16, packed / 16);
}

/// The scales and minima of a Q5_K superblock stand where those of Q4_K do.
#[verifier::spinoff_prover]
#[verifier::rlimit(40)]
pub proof fn law_q5_k_scales_make_up_the_block(data: Seq<u8>, b: int, l: int, j: int)
    requires
        0 <= b < data.len() / 176,
        0 <= l < 32,
        0 <= j < 4,
    ensures
        ({
            let at = 176 * b;
            let (one, two) = (
                q5_k_raw(data, 256 * b + (32 * j + l)),
                q5_k_raw(data, 256 * b + (32 * (j + 4) + l)),
            );
            &&& one.sc < 64 && one.mn < 64 && two.sc < 64 && two.mn < 64
            &&& data[at + 4 + j] == one.sc + 64 * (two.sc / 16)
            &&& data[at + 8 + j] == one.mn + 64 * (two.mn / 16)
            &&& data[at + 12 + j] == two.sc % 16 + 16 * (two.mn % 16)
            &&& one.d == scale_in(data[at], data[at + 1])
            &&& two.d == scale_in(data[at], data[at + 1])
            &&& one.dmin == scale_in(data[at + 2], data[at + 3])
            &&& two.dmin == scale_in(data[at + 2], data[at + 3])
        }),
{
    assert((32 * j + l) / 32 == j && (32 * (j + 4) + l) / 32 == j + 4);
    lemma_q5_k_value(data, b, 32 * j + l);
    lemma_q5_k_value(data, b, 32 * (j + 4) + l);
    lemma_scales_stand(data, 176 * b + 4, j);
}

/// The fifth bits of the values at the same place of the eight sub-blocks of a
/// Q5_K superblock make up one byte.
#[verifier::spinoff_prover]
#[verifier::rlimit(40)]
pub proof fn law_q5_k_high_bits_make_up_the_block(data: Seq<u8>, b: int, l: int)
    requires
        0 <= b < data.len() / 176,
        0 <= l < 32,
    ensures
        ({
            let high = |s: int| q5_k_raw(data, 256 * b + (32 * s + l)).q as int / 16;
            data[176 * b + 16 + l] == high(0) + 2 * high(1) + 4 * high(2) + 8 * high(3) + 16 * high(
                4,
            ) + 32 * high(5) + 64 * high(6) + 128 * high(7)
        }),
{
    lemma_bits_make_up_a_byte(data[176 * b + 16 + l]);
    lemma_q5_k_high(data, b, 0, l);
    lemma_q5_k_high(data, b, 1, l);
    lemma_q5_k_high(data, b, 2, l);
    lemma_q5_k_high(data, b, 3, l);
    lemma_q5_k_high(data, b, 4, l);
    lemma_q5_k_high(data, b, 5, l);
    lemma_q5_k_high(data, b, 6, l);
    lemma_q5_k_high(data, b, 7, l);
}

/// One value of a Q6_K superblock.
#[verifier::spinoff_prover]
#[verifier::rlimit(40)]
proof fn lemma_q6_k_value(data: Seq<u8>, b: int, h: int, t: int, l: int)
    requires
        0 <= b < data.len() / 210,
        0 <= h < 2,
        0 <= t < 4,
        0 <= l < 32,
    ensures
        ({
            let six = q6_k_raw(data, 256 * b + (128 * h + 32 * t + l)).q + 32;
            &&& 0 <= six < 64
            &&& six % 16 == nibble(data[210 * b + 64 * h + 32 * (t % 2) + l] as int, t >= 2)
            &&& six / 16 == two_bits(data[210 * b + 128 + 32 * h + l] as int, t)
        }),
{
    let r = 128 * h + 32 * t + l;
    assert((256 * b + r) / 256 == b && (256 * b + r) % 256 == r);
    assert(r / 128 == h && r % 128 / 32 == t && r % 32 == l);
    let low = nibble(data[210 * b + 64 * h + 32 * (t % 2) + l] as int, t >= 2);
    let high = two_bits(data[210 * b + 128 + 32 * h + l] as int, t);
    assert(0 <= low < 16);
    lemma_bit_bounds(data[210 * b + 128 + 32 * h + l] as int, t);
    lemma_low_and_high(low, high);
    assert(q6_k_raw(data, 256 * b + r).q == low + 16 * high - 32);
}

/// The values of a Q6_K superblock, each plus 32, are numbers of six bits. In each
/// half of 128, the low four bits of quarters that lie two apart share a byte, and
/// the high two of the values at the same place of the four quarters make up one.
/// Each run of 16 values has its own signed scale; the half-precision one comes
/// last.
#[verifier::spinoff_prover]
#[verifier::rlimit(40)]
pub proof fn law_q6_k_values_make_up_the_block(data: Seq<u8>, b: int, h: int, u: int, l: int)
    requires
        0 <= b < data.len() / 210,
        0 <= h < 2,
        0 <= u < 2,
        0 <= l < 32,
    ensures
        ({
            let at = 210 * b;
            let six = |t: int| q6_k_raw(data, 256 * b + (128 * h + 32 * t + l)).q + 32;
            &&& forall|t: int| 0 <= t < 4 ==> 0 <= #[trigger] six(t) < 64
            &&& data[at + 64 * h + 32 * u + l] == six(u) % 16 + 16 * (six(u + 2) % 16)
            &&& data[at + 128 + 32 * h + l] == six(0) / 16 + 4 * (six(1) / 16) + 16 * (six(2) / 16)
                + 64 * (six(3) / 16)
        }),
{
    lemma_q6_k_value(data, b, h, 0, l);
    lemma_q6_k_value(data, b, h, 1, l);
    lemma_q6_k_value(data, b, h, 2, l);
    lemma_q6_k_value(data, b, h, 3, l);
    lemma_bits_make_up_a_byte(data[210 * b + 128 + 32 * h + l]);
    let packed = data[210 * b + 64 * h + 32 * u + l] as int;
    lemma_low_and_high(packed % 16, packed / 16);
    let six = |t: int| q6_k_raw(data, 256 * b + (128 * h + 32 * t + l)).q + 32;
    assert forall|t: int| 0 <= t < 4 implies 0 <= #[trigger] six(t) < 64 by {
        lemma_q6_k_value(data, b, h, t, l);
    }
}

/// The scales of a Q6_K superblock: one signed byte for each run of 16 values, and
/// a half-precision number for all of them.
#[verifier::spinoff_prover]
#[verifier::rlimit(40)]
pub proof fn law_q6_k_scales(data: Seq<u8>, b: int, r: int)
    requires
        0 <= b < data.len() / 210,
        0 <= r < 256,
    ensures
        ({
            let at = 210 * b;
            let value = q6_k_raw(data, 256 * b + r);
            &&& -128 <= value.sc < 128
            &&& (value.sc + 256) % 256 == data[at + 192 + r / 16]
            &&& value.d == scale_in(data[at + 208], data[at + 209])
        }),
{
    assert((256 * b + r) / 256 == b && (256 * b + r) % 256 == r);
    let half = r / 128;
    let t = r % 128 / 32;
    let l = r % 32;
    assert(r == 128 * half + 32 * t + l);
    assert(half * 8 + l / 16 + 2 * t == r / 16);
}

} // verus!
