//! The doors and shapes of the kernels, the fixtures of their probes, and the
//! settings of the packed products.

use combs_models::census::{quant_census, QuantCensus};
use combs_models::kernels::{
    gemv_slots, kernel_enabled, rms_norm_slots, try_decode_attention, try_decode_attention_q8,
    try_rms_norm, try_rope_qk, try_sliding_decode_attention, wgsl_enabled, AttnGeom, Dims4,
    RopeGeom, SplitGeom,
};
use combs_models::kv_quant::unpack_lanes;
use combs_models::numerals::{parse_list, parse_number};
use combs_models::probes::{
    arena_rows, contiguous_place, echo_fault, echo_slots, first_difference, fixture_lane,
    fixture_scales, fixture_words, mirrored, rotated_table, synth, visible_keys, GemvKernel,
};
use combs_models::qlinear::{
    batched_matmul_summary, batched_threshold, cube_k_filter, kernels_disabled, matmul_strategy,
    matmul_strategy_for, open_quant_embedding, open_quant_linear, operand_dtype,
    packed_embed_disabled, supported, try_batched_matmul_with, try_quant_embedding,
    try_quant_linear, BackendKind, Operand, QuantTensor, Strategy,
};
use combs_models::quant_linear::QuantizedLinear;
use combs_models::rotary::{rotation, table_entry};
use combs_models::{Q4KWeight, Q6KWeight, Q80Weight, QuantFormat};

fn dims(a: usize, b: usize, c: usize, d: usize) -> Dims4 {
    Dims4 { a, b, c, d }
}

#[test]
fn doors_close_on_zero_only() {
    assert!(wgsl_enabled(None));
    assert!(wgsl_enabled(Some("1")));
    assert!(wgsl_enabled(Some("")));
    assert!(!wgsl_enabled(Some("0")));
    assert!(kernel_enabled(None, None));
    assert!(!kernel_enabled(Some("0"), None));
    assert!(!kernel_enabled(None, Some("0")));
}

#[test]
fn decode_attention_takes_one_query_of_a_fitting_width() {
    let q = dims(1, 8, 1, 64);
    let arena = dims(32, 2, 16, 64);
    let geom = try_decode_attention(true, q, arena, 2, 20, 0).unwrap();
    assert_eq!(
        geom,
        AttnGeom { n_q: 8, n_kv: 2, d: 64, page_size: 16, total: 20, window: 0, mode: 0 }
    );
    assert_eq!(geom.scalar_slots(0x3E00_0000), vec![8, 2, 64, 16, 20, 0, 0, 0x3E00_0000]);
    assert_eq!(try_decode_attention(false, q, arena, 2, 20, 0), None);
    assert_eq!(try_decode_attention(true, q, arena, 1, 20, 0), None, "short table");
    assert_eq!(try_decode_attention(true, dims(1, 8, 2, 64), arena, 2, 20, 0), None);
    assert_eq!(try_decode_attention(true, dims(1, 7, 1, 64), arena, 2, 20, 0), None);
    assert_eq!(try_decode_attention(true, q, dims(32, 2, 16, 32), 2, 20, 0), None);
    assert_eq!(try_decode_attention(true, q, arena, 2, 0, 0), None);
    assert_eq!(
        try_decode_attention(true, dims(1, 8, 1, 260), dims(32, 2, 16, 260), 2, 20, 0),
        None
    );
    assert_eq!(try_decode_attention(true, dims(1, 8, 1, 6), dims(32, 2, 16, 6), 2, 20, 0), None);
    assert_eq!(
        try_sliding_decode_attention(true, q, dims(1, 2, 9, 64), 5),
        Some(AttnGeom { n_q: 8, n_kv: 2, d: 64, page_size: 1, total: 9, window: 5, mode: 1 })
    );
    assert_eq!(try_sliding_decode_attention(true, q, dims(1, 2, 0, 64), 5), None);
    assert_eq!(
        try_decode_attention_q8(true, q, dims(32, 2, 16, 16), 2, 20),
        Some(AttnGeom { n_q: 8, n_kv: 2, d: 64, page_size: 16, total: 20, window: 0, mode: 0 })
    );
    assert_eq!(
        try_decode_attention_q8(true, dims(1, 8, 1, 36), dims(32, 2, 16, 9), 2, 20),
        None,
        "whole scale groups only"
    );
}

#[test]
fn split_attention_covers_every_key_once() {
    let geom = SplitGeom { n_q: 4, n_kv: 2, d: 256, page_size: 16, total: 1300, seg_len: 512 };
    assert_eq!(geom.segs(), 3);
    assert_eq!(geom.scalar_slots(7), vec![4, 2, 256, 16, 1300, 512, 3, 7]);
    assert_eq!(geom.combine_slots(), vec![4, 256, 3]);
}

#[test]
fn rotation_is_refused_past_the_tables_and_past_the_grid() {
    let (q, k) = (dims(1, 2, 3, 64), dims(1, 1, 3, 64));
    let geom = try_rope_qk(true, q, k, 64, 64, 40).unwrap();
    assert_eq!(geom, RopeGeom { n_q: 2, n_kv: 1, seq: 3, d: 64, pos: 40 });
    assert_eq!(geom.scalar_slots(), vec![2, 1, 3, 64, 40]);
    assert_eq!(geom.workgroups(), 3);
    assert_eq!(try_rope_qk(true, q, k, 64, 64, 61).unwrap().pos, 61);
    assert_eq!(try_rope_qk(true, q, k, 64, 64, 62), None);
    assert_eq!(try_rope_qk(true, q, k, 64, 64, usize::MAX), None);
    assert_eq!(try_rope_qk(false, q, k, 64, 64, 40), None);
    assert_eq!(try_rope_qk(true, dims(2, 2, 3, 64), k, 64, 64, 40), None);
    assert_eq!(try_rope_qk(true, dims(1, 2, 3, 63), dims(1, 1, 3, 63), 64, 63, 0), None);
    let wide = dims(1, 1 << 40, 3, 64);
    assert_eq!(try_rope_qk(true, wide, k, 64, 64, 40), None);
    let huge = dims(1, usize::MAX, 3, 64);
    assert_eq!(try_rope_qk(true, huge, huge, 64, 64, 40), None);
}

#[test]
fn norms_go_row_by_row() {
    assert_eq!(try_rms_norm(true, &vec![1, 5, 300]), Some((5, 300)));
    assert_eq!(try_rms_norm(true, &vec![7]), Some((1, 7)));
    assert_eq!(try_rms_norm(false, &vec![1, 5, 300]), None);
    assert_eq!(try_rms_norm(true, &vec![1, 0, 300]), None);
    assert_eq!(try_rms_norm(true, &vec![1, 5, 0]), None);
    assert_eq!(try_rms_norm(true, &vec![65535, 4]), Some((65535, 4)));
    assert_eq!(try_rms_norm(true, &vec![65536, 4]), None);
    assert_eq!(try_rms_norm(true, &vec![usize::MAX, usize::MAX, 4]), None);
    assert_eq!(rms_norm_slots(2, 300, 0x358637BD, 0x3F800000), vec![2, 300, 0x358637BD, 0x3F800000]);
    assert_eq!(gemv_slots(211, 1024), vec![211, 1024]);
}

#[test]
fn scalar_layout_is_what_every_kernel_assumes() {
    let slots = echo_slots();
    assert_eq!(slots, vec![1, 0xAABB_CCDD_0011_2233, 7, f32::to_bits(1.5) as u64]);
    // Two words to a slot, the low one first; the last number comes back doubled.
    let word = |slot: u64| (slot & 0xFFFF_FFFF) as usize;
    let words = vec![
        word(slots[0]),
        (slots[0] >> 32) as usize,
        word(slots[1]),
        word(slots[2]),
        (f32::from_bits(slots[3] as u32) * 2.0).to_bits() as usize,
    ];
    assert_eq!(echo_fault(&words), None);
    let mut wrong = words.clone();
    wrong[1] = 9;
    assert_eq!(
        echo_fault(&wrong).unwrap(),
        "scalar layout mismatch: got [1, 9, 1122867, 7, 1077936128], expected \
         [1, 0, 1122867, 7, 1077936128] — the uniform u64-slot contract does not hold on this backend"
    );
    // Only the first five words count; what is said shows all of them.
    let mut longer = words.clone();
    longer.push(3);
    assert_eq!(echo_fault(&longer), None);
    longer[0] = 2;
    assert_eq!(
        echo_fault(&longer).unwrap(),
        "scalar layout mismatch: got [2, 0, 1122867, 7, 1077936128, 3], expected \
         [1, 0, 1122867, 7, 1077936128] — the uniform u64-slot contract does not hold on this backend"
    );
}

#[test]
fn shared_memory_mirror_survives_a_ragged_tail() {
    let n = 300usize;
    for i in 0..n {
        let base = (i / 256) * 256;
        let lane = i % 256;
        let at = base + (255 - lane);
        let staged = if at < n { at as f32 } else { 0.0 };
        assert_eq!(mirrored(i, n) as f32, staged + 1.0, "lane {i}");
    }
    assert_eq!(mirrored(0, n), 256);
    assert_eq!(mirrored(299, n), 1);
}

#[test]
fn a_rotated_table_gives_every_key_its_own_row() {
    for (total, n_kv, shift) in [(21usize, 2usize, 2usize), (300, 1, 2), (1, 2, 1), (500, 2, 1)] {
        let page_size = 16;
        let pages = total.div_ceil(page_size);
        let num_pages = pages + 2;
        let table = rotated_table(pages, num_pages, shift);
        for (p, id) in table.iter().enumerate() {
            assert_eq!(*id as usize, (p + shift) % num_pages);
        }
        let rows = arena_rows(&table, num_pages, n_kv, page_size, total);
        assert_eq!(rows.len(), num_pages * n_kv * page_size);
        assert_eq!(rows.iter().flatten().count(), n_kv * total);
        for j in 0..total {
            for g in 0..n_kv {
                let phys = table[j / page_size] as usize;
                let row = (phys * n_kv + g) * page_size + j % page_size;
                assert_eq!(rows[row], Some(g * total + j));
            }
        }
    }
}

#[test]
fn contiguous_places_invert_the_index() {
    let (n_kv, total, d) = (2usize, 5usize, 4usize);
    for i in 0..n_kv * total * d {
        assert_eq!(contiguous_place(i, total, d), (i / (total * d), (i / d) % total, i % d));
    }
}

#[test]
fn visible_keys_are_those_the_window_leaves() {
    for total in [1usize, 7, 21] {
        for window in [0usize, 1, 5, 512] {
            let keys = visible_keys(total, total - 1, if window == 0 { None } else { Some(window) });
            let want: Vec<usize> =
                (0..total).filter(|&j| window == 0 || j + window >= total).collect();
            assert_eq!(keys, want);
        }
    }
    assert_eq!(visible_keys(9, 4, Some(3)), vec![2, 3, 4]);
    assert_eq!(visible_keys(9, 4, None), vec![0, 1, 2, 3, 4]);
}

#[test]
fn synthetic_blocks_carry_their_scales() {
    for (kernel, bytes, offsets) in [
        (GemvKernel::Q8, 34usize, vec![0usize]),
        (GemvKernel::Q4K, 144, vec![0, 2]),
        (GemvKernel::Q6K, 210, vec![208]),
    ] {
        let blocks = 3;
        let mut want: Vec<u8> = (0..blocks * bytes).map(|i| ((i * 37 + 11) % 251) as u8).collect();
        for b in 0..blocks {
            for (which, off) in offsets.iter().enumerate() {
                let bits: u16 = if which == 0 { 0x3C00 } else { 0x3400 };
                want[b * bytes + off..b * bytes + off + 2].copy_from_slice(&bits.to_le_bytes());
            }
        }
        assert_eq!(synth(kernel, blocks), want);
        assert_eq!(kernel.block_bytes(), bytes);
    }
    let w = Q80Weight::from_gguf_bytes(&synth(GemvKernel::Q8, 4), 2, 64).unwrap();
    assert_eq!(w.value(1, 3).scale, 1.0f32.to_bits());
    assert_eq!(w.value(0, 0).q, ((2 * 37 + 11) % 251) as u8 as i8 as i32);
    let values = GemvKernel::Q4K.block_values();
    let w = Q4KWeight::from_gguf_bytes(&synth(GemvKernel::Q4K, 2), 2, values).unwrap();
    assert_eq!((w.value(0, 0).d, w.value(0, 0).dmin), (1.0f32.to_bits(), 0.25f32.to_bits()));
    let w = Q6KWeight::from_gguf_bytes(&synth(GemvKernel::Q6K, 2), 2, 256).unwrap();
    assert_eq!(w.value(1, 9).d, 1.0f32.to_bits());
    assert_eq!(GemvKernel::Q8.block_values(), 32);
}

#[test]
fn quantized_fixtures_unpack_to_the_chosen_lanes() {
    let (n_kv, page_size, d, total, salt) = (2usize, 16usize, 64usize, 21usize, 9usize);
    let lanes = [-127i32, -1, 0, 1, 63, 127, -64, 5];
    let scales = [0.5f32, 0.25, 1.0, 0.125];
    let (dw, dg) = (d / 4, d / 32);
    let table = rotated_table(2, 4, 1);
    let rows = arena_rows(&table, 4, n_kv, page_size, total);
    let words = fixture_words(&rows, total, d, salt);
    let bits = fixture_scales(&rows, total, d, salt);
    assert_eq!(words.len(), rows.len() * dw);
    assert_eq!(bits.len(), rows.len() * dg);
    let values = unpack_lanes(&words);
    for j in 0..total {
        for g in 0..n_kv {
            let phys = table[j / page_size] as usize;
            let row = (phys * n_kv + g) * page_size + j % page_size;
            for grp in 0..dg {
                assert_eq!(
                    bits[row * dg + grp],
                    scales[(j + g + grp + salt) % 4].to_bits()
                );
                for w in 0..8 {
                    for l in 0..4 {
                        let want = if j == 0 && g == 0 && grp == 0 && w == 0 {
                            127
                        } else {
                            lanes[(j * 31 + g * 7 + grp * 5 + w * 3 + l + salt) % 8]
                        };
                        assert_eq!(values[(row * dw + grp * 8 + w) * 4 + l], want);
                        assert_eq!(fixture_lane(j, g, grp, w, l, salt), want);
                    }
                }
            }
        }
    }
    let first = rows.iter().position(|r| *r == Some(0)).unwrap();
    assert_eq!(words[first * dw], i32::MAX);
    let blank = rows.iter().position(|r| r.is_none()).unwrap();
    assert_eq!((words[blank * dw], bits[blank * dg]), (0, 0));
}

#[test]
fn the_first_difference_is_found() {
    assert_eq!(first_difference(&vec![1, 2, 3], &vec![1, 2, 4], 3), Some(2));
    assert_eq!(first_difference(&vec![1, 2, 3], &vec![1, 2, 4], 2), None);
    assert_eq!(first_difference(&vec![0], &vec![0x8000_0000], 1), Some(0));
}

#[test]
fn rotations_read_the_other_half() {
    let (seq, d, pos) = (3usize, 64usize, 40usize);
    let half = d / 2;
    for h in 0..2 {
        for r in 0..seq {
            for c in 0..d {
                let i = (h * seq + r) * d + c;
                let turn = rotation(h, r, c, seq, d, pos);
                assert_eq!(turn.at, i);
                assert_eq!(turn.negate, c < half);
                assert_eq!(turn.mate, if c < half { i + half } else { i - half });
                assert_eq!(turn.table, (pos + r) * d + c);
            }
        }
    }
}

#[test]
fn tables_match_known_math() {
    let head_dim = 8;
    let max_pos = 4;
    // theta^(-2i/d) for theta = 10000: 1, 0.1, 0.01, 0.001.
    let inv = [1.0f64, 0.1, 0.01, 0.001];
    let angles: Vec<f64> = (0..max_pos * head_dim)
        .map(|t| {
            let (pos, frequency) = table_entry(t, head_dim / 2);
            pos as f64 * inv[frequency]
        })
        .collect();
    for pos in 0..max_pos {
        for i in 0..4 {
            let angle = pos as f64 * inv[i];
            // half-split layout: index i and i + half share the frequency.
            for idx in [pos * head_dim + i, pos * head_dim + i + 4] {
                assert!((angles[idx].cos() - angle.cos()).abs() < 1e-5, "cos at pos {pos} i {i}");
                assert!((angles[idx].sin() - angle.sin()).abs() < 1e-5, "sin at pos {pos} i {i}");
            }
        }
    }
    // Position 0 must be the identity rotation.
    for i in 0..head_dim {
        assert!((angles[i].cos() - 1.0).abs() < 1e-6);
        assert!(angles[i].sin().abs() < 1e-6);
    }
}

#[test]
fn packed_layers_validate_their_parts_in_order() {
    let ok = QuantizedLinear::new((4, 32), (4, 2), 32, Some(4)).unwrap();
    assert_eq!((ok.in_features(), ok.out_features()), (64, 4));
    let text = |r: combs_models::Result<QuantizedLinear>| r.unwrap_err().message();
    assert_eq!(
        text(QuantizedLinear::new((4, 32), (4, 2), 0, None)),
        "bad shape for quantized_weight: expected [32], got [0]"
    );
    assert_eq!(
        text(QuantizedLinear::new((4, 32), (4, 2), 31, None)),
        "bad shape for quantized_weight: expected [32], got [31]"
    );
    assert_eq!(
        text(QuantizedLinear::new((4, 30), (4, 2), 32, None)),
        "bad shape for quantized_weight: expected [16], got [30]"
    );
    assert_eq!(
        text(QuantizedLinear::new((4, 32), (4, 3), 32, None)),
        "bad shape for quantized_scales: expected [4, 2], got [4, 3]"
    );
    assert_eq!(
        text(QuantizedLinear::new((4, 32), (4, 2), 32, Some(5))),
        "bad shape for quantized_bias: expected [4], got [5]"
    );
}

/// A weight packed by the largest magnitude of each group: the product by single
/// values is that by the whole weight, and both are close to the plain one.
#[test]
fn forward_matches_dequantized_dense_matmul() {
    let (rows, cols) = (4usize, 64usize);
    let w: Vec<f32> = (0..rows * cols).map(|i| ((i * 13 % 17) as f32 - 8.0) / 4.0).collect();
    let mut packed = vec![0u8; rows * cols / 2];
    let mut scales = vec![0f32; rows * (cols / 32)];
    for r in 0..rows {
        for g in 0..cols / 32 {
            let block = &w[r * cols + g * 32..r * cols + g * 32 + 32];
            let amax = block.iter().fold(0f32, |m, v| m.max(v.abs()));
            let scale = amax / 7.0;
            scales[r * (cols / 32) + g] = scale;
            for j in 0..16 {
                let lo = ((block[j] / scale).round() as i32 + 8).clamp(0, 15) as u8;
                let hi = ((block[j + 16] / scale).round() as i32 + 8).clamp(0, 15) as u8;
                packed[r * cols / 2 + g * 16 + j] = (hi << 4) | lo;
            }
        }
    }
    let layer = QuantizedLinear::new((rows, cols / 2), (rows, cols / 32), 32, None).unwrap();
    assert_eq!(layer.in_features(), cols);
    assert_eq!(layer.out_features(), rows);

    let deq: Vec<f32> = layer
        .weight(&packed)
        .iter()
        .enumerate()
        .map(|(i, q)| *q as f32 * scales[layer.scale_index(i / cols, i % cols)])
        .collect();
    let x: Vec<f32> = (0..cols).map(|i| (i as f32) / 16.0).collect();
    for r in 0..rows {
        let got: f32 = (0..cols)
            .map(|c| x[c] * (layer.quant(&packed, r, c) as f32 * scales[layer.scale_index(r, c)]))
            .sum();
        let expect: f32 = (0..cols).map(|c| x[c] * deq[r * cols + c]).sum();
        assert!((got - expect).abs() < 1e-5);
    }

    // And the quantized weight must be close to the plain one.
    let max_err = deq.iter().zip(w.iter()).fold(0f32, |m, (d, o)| m.max((d - o).abs()));
    assert!(max_err < 0.5, "q4 reconstruction error too large: {max_err}");
}

#[test]
fn settings_are_read_as_documented() {
    assert!(!kernels_disabled(None));
    assert!(!kernels_disabled(Some("0")));
    assert!(kernels_disabled(Some("1")));
    assert!(packed_embed_disabled(Some("0")));
    assert!(!packed_embed_disabled(Some("1")));
    assert_eq!(batched_threshold(None), 8);
    assert_eq!(batched_threshold(Some("0")), usize::MAX);
    assert_eq!(batched_threshold(Some("32")), 32);
    assert_eq!(batched_threshold(Some("many")), 8);
    assert_eq!(cube_k_filter(Some("64, 128,x,256")), vec![64, 128, 256]);
    assert!(cube_k_filter(None).is_empty());
    assert_eq!(matmul_strategy(Some("cube")), Strategy::Cube);
    assert_eq!(matmul_strategy(Some("other")), Strategy::Tuned);
    assert_eq!(matmul_strategy_for(64, Strategy::Cube, &vec![64]), Strategy::Cube);
    assert_eq!(matmul_strategy_for(65, Strategy::Cube, &vec![64]), Strategy::Tuned);
    assert_eq!(matmul_strategy_for(65, Strategy::Cube, &Vec::new()), Strategy::Cube);
    assert_eq!(operand_dtype(Some("f16")), Operand::Narrow);
    assert_eq!(operand_dtype(None), Operand::Wide);
    assert_eq!(parse_number("18446744073709551616"), None);
    assert_eq!(parse_number("+7"), Some(7));
    assert_eq!(parse_number(""), None);
    assert_eq!(parse_list(" 1,2 "), vec![1, 2]);
}

#[test]
fn a_large_product_is_described() {
    assert_eq!(
        batched_matmul_summary(usize::MAX, Strategy::Tuned, Operand::Wide, &Vec::new()),
        "batched matmul OFF (COMBS_QMATMUL_BATCHED=0)"
    );
    assert_eq!(
        batched_matmul_summary(8, Strategy::Tuned, Operand::Wide, &Vec::new()),
        "batched matmul from 8 rows, tuned kernel, f32 operands"
    );
    assert_eq!(
        batched_matmul_summary(16, Strategy::Cube, Operand::Narrow, &vec![64, 128]),
        "batched matmul from 16 rows, cube (DIAGNOSTIC) kernel, f16 operands/f32 accumulator, \
         cube limited to k in [64, 128]"
    );
    let plan =
        try_batched_matmul_with(2, 5, 48, 64, 8, Operand::Narrow, Strategy::Tuned, &Vec::new());
    let plan = plan.unwrap();
    assert_eq!((plan.m, plan.k, plan.n_out, plan.normalize), (10, 64, 48, true));
    assert!(try_batched_matmul_with(1, 7, 48, 64, 8, Operand::Wide, Strategy::Tuned, &Vec::new())
        .is_none());
}

fn tensor(format: QuantFormat, data: Vec<u8>, shape: Vec<usize>) -> QuantTensor {
    QuantTensor { format, data, shape }
}

#[test]
fn a_source_without_packed_tensors_stays_dense() {
    let got = try_quant_embedding(Ok(None)).expect("the dense fallback is not an error");
    assert!(got.is_none(), "no packed bytes must mean a dense embedding");
}

#[test]
fn packed_tables_need_a_format_with_row_lookup() {
    let data = synth(GemvKernel::Q8, 2);
    let got = try_quant_embedding(Ok(Some(tensor(QuantFormat::Q8_0, data.clone(), vec![2, 32]))));
    assert_eq!(got.unwrap().unwrap().n_out(), 2);
    let got = try_quant_embedding(Ok(Some(tensor(QuantFormat::Q8_0, data.clone(), vec![2, 31]))));
    assert!(got.unwrap().is_none());
    let got = try_quant_embedding(Ok(Some(tensor(QuantFormat::Q8_0, data, vec![64]))));
    assert!(got.unwrap().is_none());
    let got = try_quant_embedding(Ok(Some(tensor(QuantFormat::Q4_0, vec![0; 36], vec![2, 32]))));
    assert!(got.unwrap().is_none());
    assert_eq!(try_quant_embedding(Err("torn".to_string())).err().unwrap().message(), "torn");
    assert!(open_quant_embedding(false, false, BackendKind::FusedF32, true));
    assert!(!open_quant_embedding(false, true, BackendKind::FusedF32, true));
    assert!(!open_quant_embedding(false, false, BackendKind::Other, true));
    assert!(supported(BackendKind::FusedF32));
}

#[test]
fn decisions_are_counted_and_ranked() {
    let mut census = QuantCensus::new();
    let data = synth(GemvKernel::Q8, 2);
    let got = try_quant_linear(
        &mut census,
        Ok(Some(tensor(QuantFormat::Q8_0, data.clone(), vec![2, 32]))),
    );
    assert!(got.unwrap().is_some());
    for _ in 0..2 {
        let got = try_quant_linear(&mut census, Ok(None));
        assert!(got.unwrap().is_none());
    }
    assert_eq!(
        quant_census(&census),
        "no packed quant tensor — dense fallback=2, packed on device=1"
    );
    assert!(!open_quant_linear(&mut census, false, BackendKind::Other, true));
    assert!(!open_quant_linear(&mut census, true, BackendKind::Other, true));
    assert!(!open_quant_linear(&mut census, false, BackendKind::UnfusedF16, false));
    assert!(open_quant_linear(&mut census, false, BackendKind::UnfusedF32, true));
    let got = try_quant_linear(
        &mut census,
        Ok(Some(tensor(QuantFormat::Q8_0, data.clone(), vec![64]))),
    );
    assert!(got.unwrap().is_none());
    let got = try_quant_linear(&mut census, Ok(Some(tensor(QuantFormat::Q8_0, data, vec![2, 31]))));
    assert!(got.unwrap().is_none());
    assert_eq!(try_quant_linear(&mut census, Err("torn".into())).err().unwrap().message(), "torn");
    assert_eq!(
        quant_census(&census),
        "no packed quant tensor — dense fallback=2, packed on device=1, \
         backend not wgpu f32/f16 — dense fallback=1, device not WgpuDevice — dense fallback=1, \
         not rank-2 — dense fallback=1, kernel-incompatible shape — dense fallback=1"
    );
}
