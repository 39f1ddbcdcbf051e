//! Packed weights against block-by-block references, down to the last bit.

use burn::tensor::f16;
use combs_models::formats::{Scaled, ScaledMin, ScaledTwice};
use combs_models::grid::{
    cube_count_1d, cube_count_capped, cube_count_tiled, gemv_workgroups, Grid,
};
use combs_models::halves::widen_halves;
use combs_models::weights::{tiled_enabled, MatmulLaunch};
use combs_models::{
    repack_q4_0, repack_q4_k, repack_q5_0, repack_q5_k, repack_q6_k, repack_q8_0, ModelError,
    Q40Weight, Q4KWeight, Q50Weight, Q5KWeight, Q6KWeight, Q80Weight, QuantFormat, QuantWeight,
};

fn lcg_bytes(n: usize, seed: u32) -> Vec<u8> {
    let mut s = seed;
    (0..n)
        .map(|_| {
            s = s.wrapping_mul(1664525).wrapping_add(1013904223);
            (s >> 24) as u8
        })
        .collect()
}

fn half(value: f32) -> [u8; 2] {
    f16::from_f32(value).to_le_bytes()
}

fn wide(bytes: &[u8]) -> f32 {
    f16::from_le_bytes([bytes[0], bytes[1]]).to_f32()
}

fn synth_q4_0(n_blocks: usize) -> Vec<u8> {
    let mut out = Vec::new();
    let mut s = 0x12345678u32;
    for b in 0..n_blocks {
        out.extend_from_slice(&half(0.003 * ((b % 11) as f32 + 1.0)));
        for _ in 0..16 {
            s = s.wrapping_mul(1664525).wrapping_add(1013904223);
            out.push((s >> 24) as u8);
        }
    }
    out
}

fn synth_q5_0(n_blocks: usize) -> Vec<u8> {
    let mut out = Vec::new();
    for b in 0..n_blocks {
        out.extend_from_slice(&half(0.003 * ((b % 11) as f32 + 1.0)));
        out.extend_from_slice(&lcg_bytes(20, 0x51D0 ^ b as u32));
    }
    out
}

fn synth_q8_0(n_blocks: usize) -> Vec<u8> {
    let mut out = Vec::new();
    for b in 0..n_blocks {
        out.extend_from_slice(&half(0.003 * ((b % 11) as f32 + 1.0)));
        out.extend_from_slice(&lcg_bytes(32, 0x80C0 ^ b as u32));
    }
    out
}

fn synth_q4_k(n_sb: usize) -> Vec<u8> {
    let mut out = Vec::new();
    for b in 0..n_sb {
        out.extend_from_slice(&half(0.002 * ((b % 9) as f32 + 1.0)));
        out.extend_from_slice(&half(0.001 * ((b % 5) as f32 + 1.0)));
        out.extend_from_slice(&lcg_bytes(140, 0xC0FFEE ^ b as u32));
    }
    out
}

fn synth_q5_k(n_sb: usize) -> Vec<u8> {
    let mut out = Vec::new();
    for b in 0..n_sb {
        out.extend_from_slice(&half(0.003 * ((b % 7) as f32 + 1.0)));
        out.extend_from_slice(&half(0.001 * ((b % 5) as f32 + 1.0)));
        out.extend_from_slice(&lcg_bytes(172, 0x5EED ^ b as u32));
    }
    out
}

fn synth_q6_k(n_sb: usize) -> Vec<u8> {
    let mut out = Vec::new();
    for b in 0..n_sb {
        out.extend_from_slice(&lcg_bytes(208, 0xBEE5 ^ b as u32));
        out.extend_from_slice(&half(0.002 * ((b % 9) as f32 + 1.0)));
    }
    out
}

fn ref_q4_0(data: &[u8]) -> Vec<f32> {
    let mut out = Vec::new();
    for block in data.chunks(18) {
        let d = wide(block);
        out.extend(block[2..].iter().map(|b| d * ((b & 15) as f32 - 8.0)));
        out.extend(block[2..].iter().map(|b| d * ((b >> 4) as f32 - 8.0)));
    }
    out
}

fn ref_q5_0(data: &[u8]) -> Vec<f32> {
    let mut out = Vec::new();
    for block in data.chunks(22) {
        let d = wide(block);
        let qh = u32::from_le_bytes([block[2], block[3], block[4], block[5]]);
        for (j, b) in block[6..].iter().enumerate() {
            let q = (b & 15) as i32 | (((qh >> j) & 1) << 4) as i32;
            out.push(d * (q - 16) as f32);
        }
        for (j, b) in block[6..].iter().enumerate() {
            let q = (b >> 4) as i32 | (((qh >> (j + 16)) & 1) << 4) as i32;
            out.push(d * (q - 16) as f32);
        }
    }
    out
}

fn ref_q8_0(data: &[u8]) -> Vec<f32> {
    let mut out = Vec::new();
    for block in data.chunks(34) {
        let d = wide(block);
        out.extend(block[2..].iter().map(|b| d * (*b as i8) as f32));
    }
    out
}

/// The 6-bit scale and minimum of sub-block `j`.
fn scale_min(j: usize, s: &[u8]) -> (u8, u8) {
    if j < 4 {
        (s[j] & 63, s[j + 4] & 63)
    } else {
        (
            (s[j + 4] & 15) | ((s[j - 4] >> 6) << 4),
            (s[j + 4] >> 4) | ((s[j] >> 6) << 4),
        )
    }
}

fn ref_q4_k(data: &[u8]) -> Vec<f32> {
    let mut out = Vec::new();
    for block in data.chunks(144) {
        let (d, dmin) = (wide(block), wide(&block[2..]));
        let scales = &block[4..16];
        for pair in 0..4 {
            let qs = &block[16 + 32 * pair..16 + 32 * (pair + 1)];
            let (sc, mn) = scale_min(2 * pair, scales);
            out.extend(
                qs.iter().map(|b| d * sc as f32 * (b & 15) as f32 - dmin * mn as f32),
            );
            let (sc, mn) = scale_min(2 * pair + 1, scales);
            out.extend(
                qs.iter().map(|b| d * sc as f32 * (b >> 4) as f32 - dmin * mn as f32),
            );
        }
    }
    out
}

fn ref_q5_k(data: &[u8]) -> Vec<f32> {
    let mut out = Vec::new();
    for block in data.chunks(176) {
        let (d, dmin) = (wide(block), wide(&block[2..]));
        let scales = &block[4..16];
        let qh = &block[16..48];
        for pair in 0..4 {
            let qs = &block[48 + 32 * pair..48 + 32 * (pair + 1)];
            let (sc, mn) = scale_min(2 * pair, scales);
            for (b, h) in qs.iter().zip(qh) {
                let q = (b & 15) + ((h >> (2 * pair)) & 1) * 16;
                out.push(d * sc as f32 * q as f32 - dmin * mn as f32);
            }
            let (sc, mn) = scale_min(2 * pair + 1, scales);
            for (b, h) in qs.iter().zip(qh) {
                let q = (b >> 4) + ((h >> (2 * pair + 1)) & 1) * 16;
                out.push(d * sc as f32 * q as f32 - dmin * mn as f32);
            }
        }
    }
    out
}

fn ref_q6_k(data: &[u8]) -> Vec<f32> {
    let mut out = Vec::new();
    for block in data.chunks(210) {
        let d = wide(&block[208..]);
        let mut y = vec![0f32; 256];
        for n in 0..2 {
            let ql = &block[64 * n..64 * (n + 1)];
            let qh = &block[128 + 32 * n..128 + 32 * (n + 1)];
            let sc = &block[192 + 8 * n..192 + 8 * (n + 1)];
            for l in 0..32 {
                let is = l / 16;
                let q = [
                    (ql[l] & 15) | ((qh[l] & 3) << 4),
                    (ql[l + 32] & 15) | (((qh[l] >> 2) & 3) << 4),
                    (ql[l] >> 4) | (((qh[l] >> 4) & 3) << 4),
                    (ql[l + 32] >> 4) | (((qh[l] >> 6) & 3) << 4),
                ];
                for (quarter, q) in q.iter().enumerate() {
                    let s = sc[is + 2 * quarter] as i8;
                    y[128 * n + 32 * quarter + l] = d * s as f32 * (*q as i32 - 32) as f32;
                }
            }
        }
        out.extend(y);
    }
    out
}

fn plain(v: Scaled) -> f32 {
    f32::from_bits(v.scale) * v.q as f32
}

fn with_min(v: ScaledMin) -> f32 {
    f32::from_bits(v.d) * v.sc as f32 * v.q as f32 - f32::from_bits(v.dmin) * v.mn as f32
}

fn twice(v: ScaledTwice) -> f32 {
    f32::from_bits(v.d) * v.sc as f32 * v.q as f32
}

fn all(n_out: usize, k: usize, value: impl Fn(usize, usize) -> f32) -> Vec<f32> {
    (0..n_out * k).map(|i| value(i / k, i % k)).collect()
}

#[test]
fn dequant_kernel_is_bit_exact_vs_cpu_reference() {
    let data = synth_q4_0(33);
    let w = Q40Weight::from_gguf_bytes(&data, 33, 32).unwrap();
    assert_eq!(all(33, 32, |r, c| plain(w.value(r, c))), ref_q4_0(&data));
}

#[test]
fn q5_0_and_q8_0_dequant_are_bit_exact() {
    let data = synth_q5_0(33);
    let w = Q50Weight::from_gguf_bytes(&data, 3, 352).unwrap();
    assert_eq!(all(3, 352, |r, c| plain(w.value(r, c))), ref_q5_0(&data));

    let data = synth_q8_0(33);
    let w = Q80Weight::from_gguf_bytes(&data, 3, 352).unwrap();
    assert_eq!(all(3, 352, |r, c| plain(w.value(r, c))), ref_q8_0(&data));
}

#[test]
fn q4_k_dequant_matches_cpu_reference() {
    let data = synth_q4_k(9);
    let w = Q4KWeight::from_gguf_bytes(&data, 3, 768).unwrap();
    assert_eq!(all(3, 768, |r, c| with_min(w.value(r, c))), ref_q4_k(&data));
}

#[test]
fn q5_k_dequant_matches_cpu_reference() {
    let data = synth_q5_k(9);
    let w = Q5KWeight::from_gguf_bytes(&data, 3, 768).unwrap();
    assert_eq!(all(3, 768, |r, c| with_min(w.value(r, c))), ref_q5_k(&data));
}

#[test]
fn q6_k_dequant_matches_cpu_reference() {
    let data = synth_q6_k(9);
    let w = Q6KWeight::from_gguf_bytes(&data, 3, 768).unwrap();
    assert_eq!(all(3, 768, |r, c| twice(w.value(r, c))), ref_q6_k(&data));
}

#[test]
fn q8_0_gather_is_bit_exact_vs_cpu_reference_rows() {
    let (vocab, k) = (67usize, 64usize);
    let data = synth_q8_0(vocab * k / 32);
    let w = Q80Weight::from_gguf_bytes(&data, vocab, k).unwrap();
    let dense = ref_q8_0(&data);
    for ids in [vec![3usize], vec![3, 0, 66, 3, 41]] {
        assert_eq!(
            w.gather_rows_device(ids.len()),
            cube_count_capped((ids.len() * k) as u32)
        );
        for &row in &ids {
            let got: Vec<f32> = (0..k).map(|c| plain(w.value(row, c))).collect();
            assert_eq!(got, dense[row * k..(row + 1) * k], "row {row}");
        }
    }
}

#[test]
fn q4_k_and_q6_k_gather_are_bit_exact_vs_cpu_reference_rows() {
    let (vocab, k) = (13usize, 256usize);
    let data = synth_q4_k(vocab);
    let w = Q4KWeight::from_gguf_bytes(&data, vocab, k).unwrap();
    let dense = ref_q4_k(&data);
    for row in [5usize, 0, 12, 5, 7] {
        let got: Vec<f32> = (0..k).map(|c| with_min(w.value(row, c))).collect();
        assert_eq!(got, dense[row * k..(row + 1) * k], "q4_k row {row}");
    }
    let data = synth_q6_k(vocab);
    let w = Q6KWeight::from_gguf_bytes(&data, vocab, k).unwrap();
    let dense = ref_q6_k(&data);
    for row in [5usize, 0, 12, 5, 7] {
        let got: Vec<f32> = (0..k).map(|c| twice(w.value(row, c))).collect();
        assert_eq!(got, dense[row * k..(row + 1) * k], "q6_k row {row}");
    }
}

#[test]
fn shape_validation() {
    // Truncated block stream.
    assert!(repack_q4_0(&[0u8; 17]).is_err());
    // k not a multiple of the block size.
    assert!(Q40Weight::from_gguf_bytes(&synth_q4_0(2), 2, 31).is_err());
    // Byte count disagrees with [n_out, k].
    assert!(Q40Weight::from_gguf_bytes(&synth_q4_0(2), 2, 64).is_err());
    // Bad x length.
    let w = Q40Weight::from_gguf_bytes(&synth_q4_0(2), 2, 32).unwrap();
    assert!(w.matmul_host(31, 1).is_err());
}

#[test]
fn q5_q8_shape_validation() {
    assert!(repack_q5_0(&[0u8; 21]).is_err());
    assert!(repack_q8_0(&[0u8; 33]).is_err());
    assert!(Q50Weight::from_gguf_bytes(&synth_q5_0(2), 2, 31).is_err());
    assert!(Q80Weight::from_gguf_bytes(&synth_q8_0(2), 2, 64).is_err());
}

#[test]
fn k_quant_shape_validation() {
    assert!(repack_q4_k(&[0u8; 143]).is_err());
    assert!(repack_q6_k(&[0u8; 209]).is_err());
    // k must be a superblock multiple.
    assert!(Q4KWeight::from_gguf_bytes(&synth_q4_k(1), 1, 128).is_err());
    assert!(Q6KWeight::from_gguf_bytes(&synth_q6_k(1), 1, 128).is_err());
}

#[test]
fn refused_streams_say_what_was_expected() {
    match repack_q5_k(&[0u8; 175]) {
        Err(ModelError::BadShape { tensor, expected, got }) => {
            assert_eq!(tensor, "q5_k superblock stream");
            assert_eq!((expected, got), (vec![176], vec![175]));
        }
        other => panic!("{other:?}"),
    }
    assert!(repack_q4_0(&[]).is_err());
    let w = Q40Weight::from_gguf_bytes(&synth_q4_0(2), 2, 32).unwrap();
    match w.matmul_host(31, 1) {
        Err(ModelError::BadShape { tensor, expected, got }) => {
            assert_eq!(tensor, "q4_0 matmul input");
            assert_eq!((expected, got), (vec![1, 32], vec![31]));
        }
        other => panic!("{other:?}"),
    }
}

#[test]
fn packed_planes_hold_the_bytes_of_their_blocks() {
    let data = synth_q4_0(3);
    let (qs, d) = repack_q4_0(&data).unwrap();
    assert_eq!(qs.len(), 12);
    assert_eq!(qs[4], u32::from_le_bytes([data[20], data[21], data[22], data[23]]));
    assert_eq!(d[1], wide(&data[18..]).to_bits());
    let data = synth_q6_k(2);
    let (ql, qh, sc, d) = repack_q6_k(&data).unwrap();
    assert_eq!((ql.len(), qh.len(), sc.len(), d.len()), (64, 32, 8, 2));
    assert_eq!(d[1], wide(&data[418..]).to_bits());
    let (qs, qh, dd, scales) = repack_q5_k(&synth_q5_k(2)).unwrap();
    assert_eq!((qs.len(), qh.len(), dd.len(), scales.len()), (64, 16, 4, 6));
}

#[test]
fn resident_sizes_count_every_plane() {
    let blocks = 67 * 128 / 32;
    let w = Q40Weight::from_gguf_bytes(&synth_q4_0(blocks), 67, 128).unwrap();
    assert_eq!(w.vram_bytes(), blocks * 20);
    assert_eq!((w.n_out(), w.k()), (67, 128));
    let w = Q50Weight::from_gguf_bytes(&synth_q5_0(blocks), 67, 128).unwrap();
    assert_eq!(w.vram_bytes(), blocks * 24);
    let w = Q80Weight::from_gguf_bytes(&synth_q8_0(blocks), 67, 128).unwrap();
    assert_eq!(w.vram_bytes(), blocks * 36);
    let sb = 35 * 512 / 256;
    let w = Q4KWeight::from_gguf_bytes(&synth_q4_k(sb), 35, 512).unwrap();
    assert_eq!(w.vram_bytes(), sb * 148);
    let w = Q5KWeight::from_gguf_bytes(&synth_q5_k(sb), 35, 512).unwrap();
    assert_eq!(w.vram_bytes(), sb * 180);
    let w = Q6KWeight::from_gguf_bytes(&synth_q6_k(sb), 35, 512).unwrap();
    assert_eq!(w.vram_bytes(), sb * 212);
}

#[test]
fn launches_go_by_the_number_of_rows() {
    let w = Q80Weight::from_gguf_bytes(&synth_q8_0(4), 2, 64).unwrap();
    assert_eq!(w.matmul_device(1, true), MatmulLaunch::Flat(Grid { x: 1, y: 1, z: 1 }));
    assert_eq!(w.matmul_device(3, true), MatmulLaunch::Tiled(Grid { x: 1, y: 3, z: 1 }));
    assert_eq!(w.matmul_device(3, false), MatmulLaunch::Flat(Grid { x: 1, y: 1, z: 1 }));
    assert!(w.matmul_host(0, 0, true).is_err());
    assert!(w.matmul_host(64, 1, true).is_ok());
    assert!(tiled_enabled(Some("1")) != tiled_enabled(Some("0")));
}

#[test]
fn a_weight_of_any_format_takes_the_route_of_its_format() {
    let w = QuantWeight::from_quant_tensor(QuantFormat::Q4K, &synth_q4_k(2), 2, 256).unwrap();
    assert_eq!((w.n_out(), w.k(), w.vram_bytes()), (2, 256, 2 * 148));
    assert!(w.supports_gather());
    assert!(w.gather_rows_device(4).is_some());
    assert_eq!(w.matmul_device(1, true, true), MatmulLaunch::Gemv(1));
    assert_eq!(w.matmul_device(1, false, true), MatmulLaunch::Flat(Grid { x: 1, y: 1, z: 1 }));
    assert_eq!(w.matmul_device(2, true, true), MatmulLaunch::Tiled(Grid { x: 1, y: 2, z: 1 }));
    let w = QuantWeight::from_quant_tensor(QuantFormat::Q4_0, &synth_q4_0(2), 2, 32).unwrap();
    assert!(!w.supports_gather());
    assert_eq!(w.gather_rows_device(4), None);
    assert!(QuantWeight::from_quant_tensor(QuantFormat::Q8_0, &[0; 33], 1, 32).is_err());
}

#[test]
fn grids_hold_what_they_are_asked_for() {
    assert_eq!(cube_count_1d(0), Grid { x: 1, y: 1, z: 1 });
    assert_eq!(cube_count_1d(257), Grid { x: 2, y: 1, z: 1 });
    assert_eq!(cube_count_capped(65535 * 256), Grid { x: 65535, y: 1, z: 1 });
    assert_eq!(cube_count_capped(65535 * 256 + 1), Grid { x: 65535, y: 2, z: 1 });
    assert_eq!(cube_count_tiled(300, 0), Grid { x: 2, y: 1, z: 1 });
    assert_eq!(gemv_workgroups(211), 14);
}

#[test]
fn halves_widen_to_the_same_number() {
    let halves: Vec<u16> = vec![0x3C00, 0x3400, 0x0000, 0x8000, 0x0001, 0x03FF, 0x0400, 0x7C00, 0xFC00, 0x7BFF];
    let want: Vec<u32> = vec![
        1.0f32.to_bits(),
        0.25f32.to_bits(),
        0,
        0x8000_0000,
        5.960_464_5e-8f32.to_bits(),
        6.097_555_2e-5f32.to_bits(),
        6.103_515_6e-5f32.to_bits(),
        f32::INFINITY.to_bits(),
        f32::NEG_INFINITY.to_bits(),
        65504.0f32.to_bits(),
    ];
    assert_eq!(widen_halves(&halves), want);
    assert_eq!(widen_halves(&vec![0x7E01])[0], 0x7FC0_2000);
    assert_eq!(widen_halves(&vec![0x7D01])[0], 0x7FE0_2000);
    assert!(widen_halves(&Vec::new()).is_empty());
}
