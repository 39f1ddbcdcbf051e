//! The packed weight formats: how a block stream is laid out, how it is split
//! into planes of words, and which number each value stands for.
//!
//! Every `repack_*` takes a raw block stream apart into word-aligned planes;
//! every `*_at` reads one value back from them. The laws say that this is the
//! value that the raw stream holds.

use vstd::prelude::*;

use crate::blocks::{collect_halves, collect_words, half_plane, le_half, plane, signed, stream_byte};
use crate::error::{bad_shape, is_bad_shape, one, Result};
use crate::halves::{single_of_half, widen_halves};

verus! {

/// Values per block of Q4_0, Q5_0 and Q8_0.
pub const Q4_0_BLOCK: usize = 32;

/// Bytes per Q4_0 block: a half-precision scale and 16 bytes of nibbles.
pub const Q4_0_BLOCK_BYTES: usize = 18;

/// Bytes per Q5_0 block: a half-precision scale, 32 high bits and 16 bytes of
/// nibbles.
pub const Q5_0_BLOCK_BYTES: usize = 22;

/// Bytes per Q8_0 block: a half-precision scale and 32 signed bytes.
pub const Q8_0_BLOCK_BYTES: usize = 34;

/// Values per superblock of the K formats.
pub const K_SUPERBLOCK: usize = 256;

/// Bytes per Q4_K superblock: two half-precision scales, 12 bytes of 6-bit
/// scales and 128 bytes of nibbles.
pub const Q4_K_BLOCK_BYTES: usize = 144;

/// Bytes per Q5_K superblock: that of Q4_K and 32 bytes of high bits.
pub const Q5_K_BLOCK_BYTES: usize = 176;

/// Bytes per Q6_K superblock: 128 bytes of nibbles, 64 bytes of high bits, 16
/// signed scales and a half-precision scale.
pub const Q6_K_BLOCK_BYTES: usize = 210;

/// A packed weight format.
#[derive(Debug, Clone, Copy, PartialEq, Eq, Structural)]
pub enum QuantFormat {
    /// 4-bit blocks.
    Q4_0,
    /// 5-bit blocks.
    Q5_0,
    /// 8-bit blocks.
    Q8_0,
    /// 4-bit superblocks.
    Q4K,
    /// 5-bit superblocks.
    Q5K,
    /// 6-bit superblocks.
    Q6K,
}

/// A value of a simple block: `q * scale`.
#[derive(Debug, Clone, Copy, PartialEq, Eq, Structural)]
pub struct Scaled {
    /// The integer.
    pub q: i32,
    /// Bit pattern of the single-precision scale.
    pub scale: u32,
}

/// A value of a superblock with minima: `d * sc * q - dmin * mn`.
#[derive(Debug, Clone, Copy, PartialEq, Eq, Structural)]
pub struct ScaledMin {
    /// The integer.
    pub q: u32,
    /// 6-bit scale of the sub-block.
    pub sc: u32,
    /// 6-bit minimum of the sub-block.
    pub mn: u32,
    /// Bit pattern of the single-precision scale of scales.
    pub d: u32,
    /// Bit pattern of the single-precision scale of minima.
    pub dmin: u32,
}

/// A value of a superblock with signed scales: `d * sc * q`.
#[derive(Debug, Clone, Copy, PartialEq, Eq, Structural)]
pub struct ScaledTwice {
    /// The integer.
    pub q: i32,
    /// Signed scale of the group.
    pub sc: i32,
    /// Bit pattern of the single-precision scale.
    pub d: u32,
}

/// The low or the high nibble of a byte.
pub open spec fn nibble(byte: int, high: bool) -> int {
    if high {
        byte / 16
    } else {
        byte % 16
    }
}

/// Bit `at` of a byte or word.
pub open spec fn bit(value: int, at: int) -> int {
    value / (vstd::arithmetic::power2::pow2(at as nat) as int) % 2
}

/// The bit patterns of half-precision scales in single precision.
pub open spec fn singles(halves: Seq<u16>) -> Seq<u32> {
    Seq::new(halves.len(), |i: int| single_of_half(halves[i]))
}

/// A stream of whole blocks, at least one.
pub open spec fn whole_blocks(len: int, bytes: int) -> bool {
    len > 0 && len % bytes == 0
}

/// Value `i` of a raw Q4_0 stream.
pub open spec fn q4_0_raw(data: Seq<u8>, i: int) -> Scaled {
    let at = i / 32 * 18;
    let j = i % 32;
    Scaled {
        q: (nibble(data[at + 2 + j % 16] as int, j >= 16) - 8) as i32,
        scale: single_of_half(le_half(data, at)),
    }
}

/// Value `i` of the planes of a Q4_0 weight.
pub open spec fn q4_0_packed(qs: Seq<u32>, d: Seq<u32>, i: int) -> Scaled {
    let j = i % 32;
    Scaled {
        q: (nibble(stream_byte(qs, i / 32 * 16 + j % 16), j >= 16) - 8) as i32,
        scale: d[i / 32],
    }
}

/// Value `i` of a raw Q8_0 stream.
pub open spec fn q8_0_raw(data: Seq<u8>, i: int) -> Scaled {
    let at = i / 32 * 34;
    Scaled {
        q: signed(data[at + 2 + i % 32] as int) as i32,
        scale: single_of_half(le_half(data, at)),
    }
}

/// Value `i` of the planes of a Q8_0 weight.
pub open spec fn q8_0_packed(qs: Seq<u32>, d: Seq<u32>, i: int) -> Scaled {
    Scaled { q: signed(stream_byte(qs, i / 32 * 32 + i % 32)) as i32, scale: d[i / 32] }
}

/// Value `i` of a raw Q5_0 stream: the high bit of value `j` is bit `j` of the
/// block's 32 high bits.
pub open spec fn q5_0_raw(data: Seq<u8>, i: int) -> Scaled {
    let at = i / 32 * 22;
    let j = i % 32;
    Scaled {
        q: (nibble(data[at + 6 + j % 16] as int, j >= 16) + 16 * bit(
            data[at + 2 + j / 8] as int,
            j % 8,
        ) - 16) as i32,
        scale: single_of_half(le_half(data, at)),
    }
}

/// Value `i` of the planes of a Q5_0 weight.
pub open spec fn q5_0_packed(qs: Seq<u32>, qh: Seq<u32>, d: Seq<u32>, i: int) -> Scaled {
    let j = i % 32;
    Scaled {
        q: (nibble(stream_byte(qs, i / 32 * 16 + j % 16), j >= 16) + 16 * bit(
            stream_byte(qh, i / 32 * 4 + j / 8),
            j % 8,
        ) - 16) as i32,
        scale: d[i / 32],
    }
}

/// The 6-bit scale of sub-block `j` in 12 packed bytes.
pub open spec fn six_bit_scale(bytes: spec_fn(int) -> int, j: int) -> int {
    if j < 4 {
        bytes(j) % 64
    } else {
        bytes(j + 4) % 16 + bytes(j - 4) / 64 * 16
    }
}

/// The 6-bit minimum of sub-block `j` in 12 packed bytes.
pub open spec fn six_bit_min(bytes: spec_fn(int) -> int, j: int) -> int {
    if j < 4 {
        bytes(j + 4) % 64
    } else {
        bytes(j + 4) / 16 + bytes(j) / 64 * 16
    }
}

/// Value `i` of a raw Q4_K stream: groups of 64 values, the first 32 in the low
/// nibbles, each half with a scale and a minimum of its own.
pub open spec fn q4_k_raw(data: Seq<u8>, i: int) -> ScaledMin {
    let at = i / 256 * 144;
    let r = i % 256;
    let j = r / 32;
    ScaledMin {
        q: nibble(data[at + 16 + r / 64 * 32 + r % 32] as int, j % 2 == 1) as u32,
        sc: six_bit_scale(|t: int| data[at + 4 + t] as int, j) as u32,
        mn: six_bit_min(|t: int| data[at + 4 + t] as int, j) as u32,
        d: single_of_half(le_half(data, at)),
        dmin: single_of_half(le_half(data, at + 2)),
    }
}

/// Value `i` of the planes of a Q4_K weight.
pub open spec fn q4_k_packed(qs: Seq<u32>, dd: Seq<u32>, scales: Seq<u32>, i: int) -> ScaledMin {
    let sb = i / 256;
    let r = i % 256;
    let j = r / 32;
    ScaledMin {
        q: nibble(stream_byte(qs, sb * 128 + r / 64 * 32 + r % 32), j % 2 == 1) as u32,
        sc: six_bit_scale(|t: int| stream_byte(scales, sb * 12 + t), j) as u32,
        mn: six_bit_min(|t: int| stream_byte(scales, sb * 12 + t), j) as u32,
        d: dd[sb * 2],
        dmin: dd[sb * 2 + 1],
    }
}

/// Value `i` of a raw Q5_K stream: that of Q4_K with the fifth bit of sub-block
/// `j` in bit `j` of the high bits.
pub open spec fn q5_k_raw(data: Seq<u8>, i: int) -> ScaledMin {
    let at = i / 256 * 176;
    let r = i % 256;
    let j = r / 32;
    ScaledMin {
        q: (nibble(data[at + 48 + r / 64 * 32 + r % 32] as int, j % 2 == 1) + 16 * bit(
            data[at + 16 + r % 32] as int,
            j,
        )) as u32,
        sc: six_bit_scale(|t: int| data[at + 4 + t] as int, j) as u32,
        mn: six_bit_min(|t: int| data[at + 4 + t] as int, j) as u32,
        d: single_of_half(le_half(data, at)),
        dmin: single_of_half(le_half(data, at + 2)),
    }
}

/// Value `i` of the planes of a Q5_K weight.
pub open spec fn q5_k_packed(
    qs: Seq<u32>,
    qh: Seq<u32>,
    dd: Seq<u32>,
    scales: Seq<u32>,
    i: int,
) -> ScaledMin {
    let sb = i / 256;
    let r = i % 256;
    let j = r / 32;
    ScaledMin {
        q: (nibble(stream_byte(qs, sb * 128 + r / 64 * 32 + r % 32), j % 2 == 1) + 16 * bit(
            stream_byte(qh, sb * 32 + r % 32),
            j,
        )) as u32,
        sc: six_bit_scale(|t: int| stream_byte(scales, sb * 12 + t), j) as u32,
        mn: six_bit_min(|t: int| stream_byte(scales, sb * 12 + t), j) as u32,
        d: dd[sb * 2],
        dmin: dd[sb * 2 + 1],
    }
}

/// Two bits of a byte, from bit `2 * at`.
pub open spec fn two_bits(byte: int, at: int) -> int {
    byte / (vstd::arithmetic::power2::pow2((2 * at) as nat) as int) % 4
}

/// Value `i` of a raw Q6_K stream: halves of 128 values in four quadrants of
/// 32, with a scale for each 16 values.
pub open spec fn q6_k_raw(data: Seq<u8>, i: int) -> ScaledTwice {
    let at = i / 256 * 210;
    let r = i % 256;
    let half = r / 128;
    let t = r % 128 / 32;
    let l = r % 32;
    ScaledTwice {
        q: (nibble(data[at + half * 64 + t % 2 * 32 + l] as int, t >= 2) + 16 * two_bits(
            data[at + 128 + half * 32 + l] as int,
            t,
        ) - 32) as i32,
        sc: signed(data[at + 192 + (half * 8 + l / 16 + 2 * t)] as int) as i32,
        d: single_of_half(le_half(data, at + 208)),
    }
}

/// Value `i` of the planes of a Q6_K weight.
pub open spec fn q6_k_packed(
    ql: Seq<u32>,
    qh: Seq<u32>,
    sc: Seq<u32>,
    d: Seq<u32>,
    i: int,
) -> ScaledTwice {
    let sb = i / 256;
    let r = i % 256;
    let half = r / 128;
    let t = r % 128 / 32;
    let l = r % 32;
    ScaledTwice {
        q: (nibble(stream_byte(ql, sb * 128 + (half * 64 + t % 2 * 32 + l)), t >= 2) + 16
            * two_bits(stream_byte(qh, sb * 64 + (half * 32 + l)), t) - 32) as i32,
        sc: signed(stream_byte(sc, sb * 16 + (half * 8 + l / 16 + 2 * t))) as i32,
        d: d[sb],
    }
}

/// Checks that a stream of `len` bytes is made of whole blocks.
fn check_stream(tensor: &str, len: usize, bytes: usize) -> (r: Result<()>)
    requires
        bytes > 0,
    ensures
        r is Ok <==> whole_blocks(len as int, bytes as int),
        r matches Err(e) ==> is_bad_shape(e, tensor@, seq![bytes], seq![len]),
{
    if len == 0 || len % bytes != 0 {
        Err(bad_shape(tensor, one(bytes), one(len)))
    } else {
        Ok(())
    }
}

/// Splits a Q4_0 stream into four words of nibbles and a scale per block.
pub fn repack_q4_0(data: &[u8]) -> (r: Result<(Vec<u32>, Vec<u32>)>)
    ensures
        r is Ok <==> whole_blocks(data@.len() as int, 18),
        r is Ok <==> data@.len() > 0 && data@.len() as int % 18 == 0,
        r matches Err(e) ==> is_bad_shape(
            e,
            "q4_0 block stream"@,
            seq![18usize],
            seq![data@.len() as usize],
        ),
        r matches Ok((qs, d)) ==> qs@ == plane(data@, 18, 2, 4) && d@ == singles(
            half_plane(data@, 18, 0, 1),
        ),
{
    match check_stream("q4_0 block stream", data.len(), Q4_0_BLOCK_BYTES) {
        Err(e) => Err(e),
        Ok(()) => {
            let qs: Vec<u32> = collect_words(data, Q4_0_BLOCK_BYTES, 2, 4);
            let d: Vec<u32> = widen_halves(&collect_halves(data, Q4_0_BLOCK_BYTES, 0, 1));
            Ok((qs, d))
        },
    }
}

/// Splits a Q5_0 stream into four words of nibbles, a word of high bits and a
/// scale per block.
pub fn repack_q5_0(data: &[u8]) -> (r: Result<(Vec<u32>, Vec<u32>, Vec<u32>)>)
    ensures
        r is Ok <==> whole_blocks(data@.len() as int, 22),
        r is Ok <==> data@.len() > 0 && data@.len() as int % 22 == 0,
        r matches Err(e) ==> is_bad_shape(
            e,
            "q5_0 block stream"@,
            seq![22usize],
            seq![data@.len() as usize],
        ),
        r matches Ok((qs, qh, d)) ==> qs@ == plane(data@, 22, 6, 4) && qh@ == plane(
            data@,
            22,
            2,
            1,
        ) && d@ == singles(half_plane(data@, 22, 0, 1)),
{
    match check_stream("q5_0 block stream", data.len(), Q5_0_BLOCK_BYTES) {
        Err(e) => Err(e),
        Ok(()) => {
            let qs: Vec<u32> = collect_words(data, Q5_0_BLOCK_BYTES, 6, 4);
            let qh: Vec<u32> = collect_words(data, Q5_0_BLOCK_BYTES, 2, 1);
            let d: Vec<u32> = widen_halves(&collect_halves(data, Q5_0_BLOCK_BYTES, 0, 1));
            Ok((qs, qh, d))
        },
    }
}

/// Splits a Q8_0 stream into eight words of signed bytes and a scale per block.
pub fn repack_q8_0(data: &[u8]) -> (r: Result<(Vec<u32>, Vec<u32>)>)
    ensures
        r is Ok <==> whole_blocks(data@.len() as int, 34),
        r is Ok <==> data@.len() > 0 && data@.len() as int % 34 == 0,
        r matches Err(e) ==> is_bad_shape(
            e,
            "q8_0 block stream"@,
            seq![34usize],
            seq![data@.len() as usize],
        ),
        r matches Ok((qs, d)) ==> qs@ == plane(data@, 34, 2, 8) && d@ == singles(
            half_plane(data@, 34, 0, 1),
        ),
{
    match check_stream("q8_0 block stream", data.len(), Q8_0_BLOCK_BYTES) {
        Err(e) => Err(e),
        Ok(()) => {
            let qs: Vec<u32> = collect_words(data, Q8_0_BLOCK_BYTES, 2, 8);
            let d: Vec<u32> = widen_halves(&collect_halves(data, Q8_0_BLOCK_BYTES, 0, 1));
            Ok((qs, d))
        },
    }
}

/// Splits a Q4_K stream into 32 words of nibbles, two scales and three words of
/// 6-bit scales per superblock.
pub fn repack_q4_k(data: &[u8]) -> (r: Result<(Vec<u32>, Vec<u32>, Vec<u32>)>)
    ensures
        r is Ok <==> whole_blocks(data@.len() as int, 144),
        r is Ok <==> data@.len() > 0 && data@.len() as int % 144 == 0,
        r matches Err(e) ==> is_bad_shape(
            e,
            "q4_k superblock stream"@,
            seq![144usize],
            seq![data@.len() as usize],
        ),
        r matches Ok((qs, dd, scales)) ==> qs@ == plane(data@, 144, 16, 32) && dd@ == singles(
            half_plane(data@, 144, 0, 2),
        ) && scales@ == plane(data@, 144, 4, 3),
{
    match check_stream("q4_k superblock stream", data.len(), Q4_K_BLOCK_BYTES) {
        Err(e) => Err(e),
        Ok(()) => {
            let qs: Vec<u32> = collect_words(data, Q4_K_BLOCK_BYTES, 16, 32);
            let dd: Vec<u32> = widen_halves(&collect_halves(data, Q4_K_BLOCK_BYTES, 0, 2));
            let scales: Vec<u32> = collect_words(data, Q4_K_BLOCK_BYTES, 4, 3);
            Ok((qs, dd, scales))
        },
    }
}

/// Splits a Q5_K stream into 32 words of nibbles, eight words of high bits, two
/// scales and three words of 6-bit scales per superblock.
pub fn repack_q5_k(data: &[u8]) -> (r: Result<(Vec<u32>, Vec<u32>, Vec<u32>, Vec<u32>)>)
    ensures
        r is Ok <==> whole_blocks(data@.len() as int, 176),
        r is Ok <==> data@.len() > 0 && data@.len() as int % 176 == 0,
        r matches Err(e) ==> is_bad_shape(
            e,
            "q5_k superblock stream"@,
            seq![176usize],
            seq![data@.len() as usize],
        ),
        r matches Ok((qs, qh, dd, scales)) ==> qs@ == plane(data@, 176, 48, 32) && qh@ == plane(
            data@,
            176,
            16,
            8,
        ) && dd@ == singles(half_plane(data@, 176, 0, 2)) && scales@ == plane(data@, 176, 4, 3),
{
    match check_stream("q5_k superblock stream", data.len(), Q5_K_BLOCK_BYTES) {
        Err(e) => Err(e),
        Ok(()) => {
            let qs: Vec<u32> = collect_words(data, Q5_K_BLOCK_BYTES, 48, 32);
            let qh: Vec<u32> = collect_words(data, Q5_K_BLOCK_BYTES, 16, 8);
            let dd: Vec<u32> = widen_halves(&collect_halves(data, Q5_K_BLOCK_BYTES, 0, 2));
            let scales: Vec<u32> = collect_words(data, Q5_K_BLOCK_BYTES, 4, 3);
            Ok((qs, qh, dd, scales))
        },
    }
}

/// Splits a Q6_K stream into 32 words of nibbles, 16 words of high bits, four
/// words of signed scales and a scale per superblock.
pub fn repack_q6_k(data: &[u8]) -> (r: Result<(Vec<u32>, Vec<u32>, Vec<u32>, Vec<u32>)>)
    ensures
        r is Ok <==> whole_blocks(data@.len() as int, 210),
        r is Ok <==> data@.len() > 0 && data@.len() as int % 210 == 0,
        r matches Err(e) ==> is_bad_shape(
            e,
            "q6_k superblock stream"@,
            seq![210usize],
            seq![data@.len() as usize],
        ),
        r matches Ok((ql, qh, sc, d)) ==> ql@ == plane(data@, 210, 0, 32) && qh@ == plane(
            data@,
            210,
            128,
            16,
        ) && sc@ == plane(data@, 210, 192, 4) && d@ == singles(half_plane(data@, 210, 208, 1)),
{
    match check_stream("q6_k superblock stream", data.len(), Q6_K_BLOCK_BYTES) {
        Err(e) => Err(e),
        Ok(()) => {
            let ql: Vec<u32> = collect_words(data, Q6_K_BLOCK_BYTES, 0, 32);
            let qh: Vec<u32> = collect_words(data, Q6_K_BLOCK_BYTES, 128, 16);
            let sc: Vec<u32> = collect_words(data, Q6_K_BLOCK_BYTES, 192, 4);
            let d: Vec<u32> = widen_halves(&collect_halves(data, Q6_K_BLOCK_BYTES, 208, 1));
            Ok((ql, qh, sc, d))
        },
    }
}

} // verus!
