//! What the loaders read from synthetic checkpoints, and what they refuse.

use combs_models::catalog::{expect_shape, Catalog, TensorEntry};
use combs_models::gemma::GemmaPlan;
use combs_models::generation::{chunk_matches, no_hidden_states, no_position_logits};
use combs_models::llama::{LlamaPlan, Part};
use combs_models::media::{
    embed_multimodal, find_spans, image_prompt_expansion, pixel_shuffle, reject_media,
    square_side, Piece,
};
use combs_models::metadata::{
    Activation, AttentionPattern, Double, ModelMetadata, RopeScaling, VisionConfig,
};
use combs_models::patches::unfold;
use combs_models::registry::{Loader, ModelRegistry};
use combs_models::smolvlm::SmolVlmPlan;
use combs_models::staged::{Opened, StageStep, StagedWeights, Supplied};
use combs_models::whisper::{causal_mask, load_speech_model, WhisperPlan};
use combs_models::{ArchSpec, LayerKind, ModelError, NormFlavor};

const HIDDEN: usize = 8;
const HEADS: usize = 2;
const KV_HEADS: usize = 1;
const HEAD_DIM: usize = HIDDEN / HEADS;
const Q_ROWS: usize = HEADS * HEAD_DIM;
const KV_ROWS: usize = KV_HEADS * HEAD_DIM;
const INTERMEDIATE: usize = 16;
const VOCAB: usize = 16;

fn double(value: f64) -> Double {
    Double { bits: value.to_bits() }
}

fn pattern(window: Option<usize>) -> AttentionPattern {
    AttentionPattern {
        sliding_window: window,
        pattern: 6,
        max_window_layers: None,
        rope_local_theta: double(10_000.0),
        query_pre_attn_scalar: None,
    }
}

fn meta(arch: &str, layers: usize, pattern: AttentionPattern) -> ModelMetadata {
    ModelMetadata {
        architecture: arch.to_string(),
        hidden_size: HIDDEN,
        intermediate_size: INTERMEDIATE,
        num_hidden_layers: layers,
        num_attention_heads: HEADS,
        num_key_value_heads: KV_HEADS,
        head_dim: HEAD_DIM,
        vocab_size: VOCAB,
        max_position_embeddings: 64,
        tie_word_embeddings: true,
        activation: Activation::Silu,
        rope_theta: double(10_000.0),
        rope_scaling: RopeScaling::Unscaled,
        attention_pattern: pattern,
        vision: None,
    }
}

#[test]
fn gemma_every_nth_layer_is_global() {
    let spec = ArchSpec::resolve(&meta("gemma3_text", 12, pattern(Some(512))));
    for (i, k) in spec.layers.iter().enumerate() {
        let expect = if (i + 1) % 6 == 0 { LayerKind::Global } else { LayerKind::Sliding(512) };
        assert_eq!(*k, expect, "layer {i}");
    }
    assert!(spec.qk_norm && spec.sandwich_norms && spec.embed_scale_sqrt_hidden);
    assert_eq!(spec.norm_flavor, NormFlavor::GemmaRmsNorm);
    assert_eq!(spec.rope_local_theta, Some(double(10_000.0)));
    assert!(spec.rotary_for(0));
    assert!(!spec.rotary_for(5));
    assert_eq!(spec.window(0), Some(512));
    assert_eq!(spec.window(5), None);
    assert_eq!(spec.activation, Activation::GeluTanh);
}

#[test]
fn qwen_first_n_layers_are_global() {
    let mut p = pattern(Some(4096));
    p.max_window_layers = Some(2);
    let spec = ArchSpec::resolve(&meta("qwen2", 4, p));
    assert_eq!(
        spec.layers,
        vec![
            LayerKind::Global,
            LayerKind::Global,
            LayerKind::Sliding(4096),
            LayerKind::Sliding(4096)
        ]
    );
    // Default split = layer count: nothing slides.
    let spec = ArchSpec::resolve(&meta("qwen2", 4, pattern(Some(4096))));
    assert_eq!(spec.layers, vec![LayerKind::Global; 4]);
}

#[test]
fn mistral_slides_everywhere_and_llama_stays_global() {
    let spec = ArchSpec::resolve(&meta("mistral", 3, pattern(Some(4096))));
    assert_eq!(spec.layers, vec![LayerKind::Sliding(4096); 3]);
    assert_eq!(spec.windows(), vec![Some(4096); 3]);

    let spec = ArchSpec::resolve(&meta("llama", 3, pattern(None)));
    assert_eq!(spec.layers, vec![LayerKind::Global; 3]);
    assert!(!spec.qk_norm && !spec.sandwich_norms);
    assert_eq!(spec.norm_flavor, NormFlavor::RmsNorm);
    assert_eq!(NormFlavor::default(), NormFlavor::RmsNorm);
}

#[test]
fn an_unknown_architecture_with_a_window_stays_global() {
    let spec = ArchSpec::resolve(&meta("llama", 2, pattern(Some(64))));
    assert_eq!(spec.layers, vec![LayerKind::Global; 2]);
}

#[test]
fn registry_has_llama_aliases() {
    let r = ModelRegistry::new();
    assert!(r.supports("llama"));
    assert!(r.supports("smollm2"));
    assert!(r.supports("qwen2"));
    assert!(r.supports("mistral"));
    assert!(r.supports("qwen3"));
}

#[test]
fn registry_lists_in_order_and_takes_new_names() {
    let mut r = ModelRegistry::new();
    assert!(!r.supports("falcon"));
    match r.load("falcon") {
        Err(ModelError::UnsupportedArchitecture(name)) => assert_eq!(name, "falcon"),
        other => panic!("{other:?}"),
    }
    r.register("falcon", Loader::Custom(7));
    r.register("llama", Loader::Custom(8));
    assert_eq!(r.load("falcon").unwrap(), Loader::Custom(7));
    assert_eq!(r.load("llama").unwrap(), Loader::Custom(8));
    assert_eq!(r.load("idefics3").unwrap(), Loader::SmolVlm);
    assert_eq!(
        r.architectures(),
        vec![
            "falcon",
            "gemma3",
            "gemma3_text",
            "idefics3",
            "llama",
            "mistral",
            "phi3",
            "qwen2",
            "qwen3",
            "smollm2"
        ]
    );
}

/// A checkpoint with its values.
struct Checkpoint {
    tensors: Vec<(String, Vec<usize>, Vec<f32>)>,
}

fn wave(name: &str, len: usize) -> Vec<f32> {
    let seed: usize = name.bytes().map(|b| b as usize).sum();
    (0..len).map(|i| ((seed * 31 + i) as f32 * 0.618).sin() * 0.1).collect()
}

impl Checkpoint {
    fn push(&mut self, name: &str, shape: Vec<usize>) {
        let len = shape.iter().product();
        self.tensors.push((name.to_string(), shape, wave(name, len)));
    }

    fn drop(&mut self, name: &str) {
        self.tensors.retain(|t| t.0 != name);
    }

    fn catalog(&self) -> Catalog {
        Catalog {
            entries: self
                .tensors
                .iter()
                .map(|(name, shape, _)| TensorEntry { name: name.clone(), shape: shape.clone() })
                .collect(),
        }
    }

    /// The values of a part.
    fn read(&self, part: &Part) -> Vec<f32> {
        let (_, shape, values) = self.tensors.iter().find(|t| t.0 == part.tensor).unwrap();
        let width: usize = shape[1..].iter().product();
        match part.rows {
            Some((first, count)) => values[first * width..(first + count) * width].to_vec(),
            None => values.clone(),
        }
    }
}

/// One layer; `fused` joins the projections, with the same values either way.
fn checkpoint(fused: bool, bias: bool) -> Checkpoint {
    let mut c = Checkpoint { tensors: Vec::new() };
    let p = "model.layers.0";
    c.push("model.embed_tokens.weight", vec![VOCAB, HIDDEN]);
    c.push("model.norm.weight", vec![HIDDEN]);
    c.push(&format!("{p}.input_layernorm.weight"), vec![HIDDEN]);
    c.push(&format!("{p}.post_attention_layernorm.weight"), vec![HIDDEN]);
    let names: Vec<String> = ["q", "k", "v"]
        .iter()
        .map(|n| format!("{p}.self_attn.{n}_proj.weight"))
        .collect();
    let (gate, up) = (format!("{p}.mlp.gate_proj.weight"), format!("{p}.mlp.up_proj.weight"));
    if fused {
        let mut values = wave(&names[0], Q_ROWS * HIDDEN);
        values.extend(wave(&names[1], KV_ROWS * HIDDEN));
        values.extend(wave(&names[2], KV_ROWS * HIDDEN));
        c.tensors.push((
            format!("{p}.self_attn.qkv_proj.weight"),
            vec![Q_ROWS + 2 * KV_ROWS, HIDDEN],
            values,
        ));
        let mut values = wave(&gate, INTERMEDIATE * HIDDEN);
        values.extend(wave(&up, INTERMEDIATE * HIDDEN));
        c.tensors.push((
            format!("{p}.mlp.gate_up_proj.weight"),
            vec![2 * INTERMEDIATE, HIDDEN],
            values,
        ));
    } else {
        c.push(&names[0], vec![Q_ROWS, HIDDEN]);
        c.push(&names[1], vec![KV_ROWS, HIDDEN]);
        c.push(&names[2], vec![KV_ROWS, HIDDEN]);
        c.push(&gate, vec![INTERMEDIATE, HIDDEN]);
        c.push(&up, vec![INTERMEDIATE, HIDDEN]);
    }
    if bias {
        c.push(&format!("{p}.self_attn.q_proj.bias"), vec![Q_ROWS]);
        c.push(&format!("{p}.self_attn.k_proj.bias"), vec![KV_ROWS]);
        c.push(&format!("{p}.self_attn.v_proj.bias"), vec![KV_ROWS]);
    }
    c.push(&format!("{p}.self_attn.o_proj.weight"), vec![HIDDEN, HIDDEN]);
    c.push(&format!("{p}.mlp.down_proj.weight"), vec![HIDDEN, INTERMEDIATE]);
    c
}

#[test]
fn fused_projections_match_split_checkpoint() {
    let fused = checkpoint(true, false);
    let split = checkpoint(false, false);
    let phi = meta("phi3", 1, pattern(Some(2047)));
    let a = LlamaPlan::load(&phi, &fused.catalog()).unwrap();
    let b = LlamaPlan::load(&phi, &split.catalog()).unwrap();
    let (la, lb) = (&a.layers[0], &b.layers[0]);
    for (x, y) in [
        (&la.q, &lb.q),
        (&la.k, &lb.k),
        (&la.v, &lb.v),
        (&la.gate, &lb.gate),
        (&la.up, &lb.up),
    ] {
        assert_eq!(fused.read(x), split.read(y));
    }
    assert_eq!(la.v.rows, Some((Q_ROWS + KV_ROWS, KV_ROWS)));
    assert_eq!(lb.v.rows, None);
    assert_eq!(la.o, lb.o);
    assert_eq!(la.down, lb.down);
    assert_eq!(a.spec.layers, vec![LayerKind::Sliding(2047)]);

    // The same weights under plain llama read the same tensors.
    let llama = meta("llama", 1, pattern(None));
    let c = LlamaPlan::load(&llama, &split.catalog()).unwrap();
    assert_eq!(split.read(&c.layers[0].q), split.read(&lb.q));
    assert_eq!(c.spec.layers, vec![LayerKind::Global]);
    // A window far larger than the sequence hides nothing.
    for q in 0..4usize {
        for k in 0..4usize {
            assert_eq!(
                combs_models::attend::forbidden(q, k, Some(2047)),
                combs_models::attend::forbidden(q, k, None)
            );
        }
    }
}

#[test]
fn qwen_bias_loads_by_presence_without_config_flag() {
    let with = LlamaPlan::load(&meta("qwen2", 1, pattern(None)), &checkpoint(false, true).catalog());
    let layer = &with.unwrap().layers[0];
    let name = |part: &Option<Part>| part.as_ref().map(|p| p.tensor.clone());
    assert_eq!(name(&layer.q_bias), Some("model.layers.0.self_attn.q_proj.bias".to_string()));
    assert_eq!(name(&layer.k_bias), Some("model.layers.0.self_attn.k_proj.bias".to_string()));
    assert_eq!(name(&layer.v_bias), Some("model.layers.0.self_attn.v_proj.bias".to_string()));
    assert!(layer.o_bias.is_none());

    let without =
        LlamaPlan::load(&meta("qwen2", 1, pattern(None)), &checkpoint(false, false).catalog());
    let layer = &without.unwrap().layers[0];
    assert!(layer.q_bias.is_none() && layer.k_bias.is_none() && layer.v_bias.is_none());
}

#[test]
fn fused_biases_are_the_split_ones_behind_one_another() {
    let p = "model.layers.0.self_attn";
    let split = checkpoint(false, true);
    let mut fused = checkpoint(true, false);
    let mut values = Vec::new();
    for n in ["q", "k", "v"] {
        let name = format!("{p}.{n}_proj.bias");
        values.extend(split.tensors.iter().find(|t| t.0 == name).unwrap().2.clone());
    }
    fused.tensors.push((format!("{p}.qkv_proj.bias"), vec![Q_ROWS + 2 * KV_ROWS], values));
    let m = meta("phi3", 1, pattern(None));
    let a = LlamaPlan::load(&m, &fused.catalog()).unwrap();
    let b = LlamaPlan::load(&m, &split.catalog()).unwrap();
    let (la, lb) = (&a.layers[0], &b.layers[0]);
    for (x, y) in [(&la.q_bias, &lb.q_bias), (&la.k_bias, &lb.k_bias), (&la.v_bias, &lb.v_bias)] {
        let (x, y) = (x.as_ref().unwrap(), y.as_ref().unwrap());
        assert_eq!(x.tensor, format!("{p}.qkv_proj.bias"));
        assert_eq!(fused.read(x), split.read(y));
    }
    // Fused weights go with split biases, too.
    let mixed = checkpoint(true, true);
    let c = LlamaPlan::load(&m, &mixed.catalog()).unwrap();
    assert_eq!(
        c.layers[0].k_bias.as_ref().unwrap().tensor,
        lb.k_bias.as_ref().unwrap().tensor
    );
    assert_eq!(mixed.read(&c.layers[0].k), split.read(&lb.k));
}

#[test]
fn fused_rows_must_add_up() {
    let m = meta("phi3", 1, pattern(None));
    let at = |c: &Checkpoint, name: &str| {
        c.tensors.iter().position(|t| t.0 == name).unwrap()
    };
    let mut c = checkpoint(true, false);
    let qkv = at(&c, "model.layers.0.self_attn.qkv_proj.weight");
    let rows = Q_ROWS + 2 * KV_ROWS;
    c.tensors[qkv].1[0] = rows + 1;
    assert_eq!(
        LlamaPlan::load(&m, &c.catalog()).unwrap_err().message(),
        format!(
            "bad shape for model.layers.0.self_attn.qkv_proj.weight: expected [{rows}, {HIDDEN}], \
             got [{}, {HIDDEN}]",
            rows + 1
        )
    );
    let mut c = checkpoint(true, false);
    let gate_up = at(&c, "model.layers.0.mlp.gate_up_proj.weight");
    c.tensors[gate_up].1[0] = INTERMEDIATE;
    assert_eq!(
        LlamaPlan::load(&m, &c.catalog()).unwrap_err().message(),
        format!(
            "bad shape for model.layers.0.mlp.gate_up_proj.weight: expected [{}, {HIDDEN}], \
             got [{INTERMEDIATE}, {HIDDEN}]",
            2 * INTERMEDIATE
        )
    );
}

#[test]
fn plans_with_and_without_biases_differ_in_nothing_else() {
    let m = meta("qwen2", 1, pattern(None));
    let a = LlamaPlan::load(&m, &checkpoint(false, true).catalog()).unwrap();
    let b = LlamaPlan::load(&m, &checkpoint(false, false).catalog()).unwrap();
    assert_eq!((&a.embed, &a.lm_head, &a.final_norm), (&b.embed, &b.lm_head, &b.final_norm));
    assert_eq!(a.spec.layers, b.spec.layers);
    let (la, lb) = (&a.layers[0], &b.layers[0]);
    for (x, y) in [
        (&la.q, &lb.q),
        (&la.k, &lb.k),
        (&la.v, &lb.v),
        (&la.gate, &lb.gate),
        (&la.up, &lb.up),
    ] {
        assert_eq!((&x.tensor, x.rows), (&y.tensor, y.rows));
    }
    assert_eq!(
        (&la.o, &la.down, &la.input_norm, &la.pre_mlp_norm),
        (&lb.o, &lb.down, &lb.input_norm, &lb.pre_mlp_norm)
    );
    assert!(la.q_bias.is_some() && lb.q_bias.is_none());
}

#[test]
fn registry_loads_sliding_window_layouts() {
    let registry = ModelRegistry::new();
    let catalog = checkpoint(false, false).catalog();
    for m in [
        // Sliding enabled, and disabled.
        meta("qwen2", 1, pattern(Some(4096))),
        meta("qwen2", 1, pattern(None)),
        // Window on every layer, and no window.
        meta("mistral", 1, pattern(Some(4096))),
        meta("mistral", 1, pattern(None)),
    ] {
        assert_eq!(registry.load(&m.architecture).unwrap(), Loader::Llama);
        assert!(LlamaPlan::load(&m, &catalog).is_ok());
    }
}

#[test]
fn a_bare_base_model_is_read_without_the_prefix() {
    let mut c = checkpoint(false, false);
    for t in &mut c.tensors {
        t.0 = t.0.trim_start_matches("model.").to_string();
    }
    let plan = LlamaPlan::load(&meta("llama", 1, pattern(None)), &c.catalog()).unwrap();
    assert_eq!(plan.embed, "embed_tokens.weight");
    assert_eq!(plan.layers[0].o, "layers.0.self_attn.o_proj.weight");
}

#[test]
fn an_untied_head_is_read_where_it_is_there() {
    let mut c = checkpoint(false, false);
    c.push("lm_head.weight", vec![VOCAB, HIDDEN]);
    let mut m = meta("llama", 1, pattern(None));
    assert_eq!(LlamaPlan::load(&m, &c.catalog()).unwrap().lm_head, None);
    m.tie_word_embeddings = false;
    assert_eq!(
        LlamaPlan::load(&m, &c.catalog()).unwrap().lm_head,
        Some("lm_head.weight".to_string())
    );
}

#[test]
fn a_missing_tensor_is_named() {
    let mut c = checkpoint(false, false);
    c.drop("model.layers.0.self_attn.o_proj.weight");
    match LlamaPlan::load(&meta("llama", 1, pattern(None)), &c.catalog()) {
        Err(ModelError::MissingTensor(name)) => {
            assert_eq!(name, "model.layers.0.self_attn.o_proj.weight")
        }
        other => panic!("{other:?}"),
    }
}

#[test]
fn a_wrong_shape_is_told_with_both_shapes() {
    let mut c = checkpoint(false, false);
    c.tensors[0].1 = vec![VOCAB, HIDDEN + 1];
    let error = LlamaPlan::load(&meta("llama", 1, pattern(None)), &c.catalog()).unwrap_err();
    assert_eq!(
        error.message(),
        "bad shape for embed_tokens.weight: expected [16, 8], got [16, 9]"
    );
    assert!(expect_shape("w", &vec![2, 3], &vec![2, 3]).is_ok());
    assert_eq!(
        expect_shape("w", &vec![2], &vec![2, 3]).unwrap_err().message(),
        "bad shape for w: expected [2, 3], got [2]"
    );
}

#[test]
fn a_wrong_rank_is_a_format_error() {
    let mut c = checkpoint(false, false);
    c.tensors[1].1 = vec![HIDDEN, 1];
    match LlamaPlan::load(&meta("llama", 1, pattern(None)), &c.catalog()) {
        Err(ModelError::Format(text)) => {
            assert_eq!(text, "unexpected rank of tensor model.norm.weight")
        }
        other => panic!("{other:?}"),
    }
}

#[test]
fn every_error_says_what_it_is_about() {
    let text = |e: ModelError| e.message();
    assert_eq!(text(ModelError::Format("torn".into())), "torn");
    assert_eq!(
        text(ModelError::UnsupportedArchitecture("x".into())),
        "unsupported architecture: x"
    );
    assert_eq!(text(ModelError::UnsupportedMedia("x".into())), "unsupported media input: x");
    assert_eq!(text(ModelError::Unsupported("x".into())), "x");
    assert_eq!(text(ModelError::MissingTensor("x".into())), "missing weight tensor: x");
    assert_eq!(
        text(no_hidden_states()),
        "this model does not expose hidden states for embeddings"
    );
    assert_eq!(text(no_position_logits()), "this model does not expose per-position logits");
    assert!(chunk_matches(4, 3, 7));
    assert!(!chunk_matches(4, 3, 8));
}

#[test]
fn gemma_reads_its_norms_and_projections() {
    let mut c = Checkpoint { tensors: Vec::new() };
    c.push("model.embed_tokens.weight", vec![VOCAB, HIDDEN]);
    c.push("model.norm.weight", vec![HIDDEN]);
    let p = "model.layers.0";
    for (name, shape) in [
        ("self_attn.q_proj", vec![Q_ROWS, HIDDEN]),
        ("self_attn.k_proj", vec![KV_ROWS, HIDDEN]),
        ("self_attn.v_proj", vec![KV_ROWS, HIDDEN]),
        ("self_attn.o_proj", vec![HIDDEN, Q_ROWS]),
        ("self_attn.q_norm", vec![HEAD_DIM]),
        ("self_attn.k_norm", vec![HEAD_DIM]),
        ("mlp.gate_proj", vec![INTERMEDIATE, HIDDEN]),
        ("mlp.up_proj", vec![INTERMEDIATE, HIDDEN]),
        ("mlp.down_proj", vec![HIDDEN, INTERMEDIATE]),
        ("input_layernorm", vec![HIDDEN]),
        ("post_attention_layernorm", vec![HIDDEN]),
        ("pre_feedforward_layernorm", vec![HIDDEN]),
        ("post_feedforward_layernorm", vec![HIDDEN]),
    ] {
        c.push(&format!("{p}.{name}.weight"), shape);
    }
    let m = meta("gemma3_text", 1, pattern(Some(512)));
    let plan = GemmaPlan::load(&m, &c.catalog()).unwrap();
    assert_eq!(plan.embed, "model.embed_tokens.weight");
    assert_eq!(plan.layers[0].list.len(), 13);
    assert_eq!(plan.layers[0].list[4].name, "model.layers.0.self_attn.q_norm.weight");
    // The universal decoder reads the same checkpoint, sandwich norms included.
    let plan = LlamaPlan::load(&m, &c.catalog()).unwrap();
    assert!(plan.layers[0].attn_out_norm.is_some() && plan.layers[0].q_norm.is_some());
    c.drop("model.layers.0.self_attn.k_norm.weight");
    assert!(GemmaPlan::load(&m, &c.catalog()).is_err());
}

fn whisper_checkpoint() -> Checkpoint {
    let mut c = Checkpoint { tensors: Vec::new() };
    c.push("model.encoder.conv1.weight", vec![HIDDEN, 80, 3]);
    c.push("model.encoder.conv1.bias", vec![HIDDEN]);
    c.push("model.encoder.conv2.weight", vec![HIDDEN, HIDDEN, 3]);
    c.push("model.encoder.conv2.bias", vec![HIDDEN]);
    c.push("model.encoder.embed_positions.weight", vec![1500, HIDDEN]);
    c.push("model.decoder.embed_tokens.weight", vec![VOCAB, HIDDEN]);
    c.push("model.decoder.embed_positions.weight", vec![448, HIDDEN]);
    for side in ["encoder", "decoder"] {
        c.push(&format!("model.{side}.layer_norm.weight"), vec![HIDDEN]);
        c.push(&format!("model.{side}.layer_norm.bias"), vec![HIDDEN]);
        let p = format!("model.{side}.layers.0");
        let blocks: &[&str] =
            if side == "encoder" { &["self_attn"] } else { &["self_attn", "encoder_attn"] };
        for block in blocks {
            c.push(&format!("{p}.{block}_layer_norm.weight"), vec![HIDDEN]);
            c.push(&format!("{p}.{block}_layer_norm.bias"), vec![HIDDEN]);
            for proj in ["q_proj", "k_proj", "v_proj", "out_proj"] {
                c.push(&format!("{p}.{block}.{proj}.weight"), vec![HIDDEN, HIDDEN]);
                if proj != "k_proj" {
                    c.push(&format!("{p}.{block}.{proj}.bias"), vec![HIDDEN]);
                }
            }
        }
        c.push(&format!("{p}.final_layer_norm.weight"), vec![HIDDEN]);
        c.push(&format!("{p}.final_layer_norm.bias"), vec![HIDDEN]);
        c.push(&format!("{p}.fc1.weight"), vec![INTERMEDIATE, HIDDEN]);
        c.push(&format!("{p}.fc1.bias"), vec![INTERMEDIATE]);
        c.push(&format!("{p}.fc2.weight"), vec![HIDDEN, INTERMEDIATE]);
        c.push(&format!("{p}.fc2.bias"), vec![HIDDEN]);
    }
    c
}

#[test]
fn whisper_takes_its_limits_from_the_weights() {
    let m = meta("whisper", 1, pattern(None));
    let plan: WhisperPlan = load_speech_model(&m, &whisper_checkpoint().catalog()).unwrap();
    assert_eq!((plan.n_mels, plan.n_audio_ctx, plan.max_ctx), (80, 1500, 448));
    assert_eq!((plan.encoder.len(), plan.decoder.len()), (1, 1));
    assert!(plan.check_mel(80).is_ok());
    assert_eq!(
        plan.check_mel(128).unwrap_err().message(),
        "bad shape for mel spectrogram: expected [1, 80], got [1, 128]"
    );
    assert!(plan.check_frames(1500).is_ok());
    assert!(plan.check_frames(1501).is_err());
    assert!(plan.check_tokens(448).is_ok());
    assert_eq!(
        plan.check_tokens(0).unwrap_err().message(),
        "bad shape for decoder tokens: expected [1], got [0]"
    );
    assert_eq!(
        plan.check_tokens(449).unwrap_err().message(),
        "bad shape for decoder context: expected [448], got [449]"
    );
    assert_eq!(
        load_speech_model(&meta("llama", 1, pattern(None)), &whisper_checkpoint().catalog())
            .unwrap_err()
            .message(),
        "unsupported architecture: llama"
    );
}

#[test]
fn causal_mask_shape_and_triangle() {
    let m: Vec<f32> = causal_mask(4)
        .iter()
        .map(|hidden| if *hidden { f32::MIN / 2.0 } else { 0.0 })
        .collect();
    assert_eq!(m[0 * 4 + 0], 0.0);
    assert!(m[0 * 4 + 1] < -1e30);
    assert_eq!(m[3 * 4 + 3], 0.0);
    assert_eq!(m[3 * 4 + 0], 0.0);
}

#[test]
fn a_vision_model_needs_its_vision_config() {
    let mut m = meta("idefics3", 1, pattern(None));
    let empty = Catalog { entries: Vec::new() };
    assert_eq!(
        SmolVlmPlan::load(&m, &empty).unwrap_err().message(),
        "missing weight tensor: vision_config"
    );
    m.vision = Some(VisionConfig {
        hidden_size: 4,
        num_hidden_layers: 1,
        num_attention_heads: 1,
        patch_size: 2,
        scale_factor: 2,
        image_seq_len: 4,
        image_token_id: 9,
    });
    assert_eq!(
        SmolVlmPlan::load(&m, &empty).unwrap_err().message(),
        "missing weight tensor: model.vision_model.embeddings.patch_embedding.weight"
    );
}

#[test]
fn pixel_shuffle_matches_hf_ordering() {
    let got: Vec<f32> = pixel_shuffle(4, 2).iter().map(|i| *i as f32).collect();
    let expected: Vec<f32> = vec![
        0.0, 1.0, 4.0, 5.0, //
        2.0, 3.0, 6.0, 7.0, //
        8.0, 9.0, 12.0, 13.0, //
        10.0, 11.0, 14.0, 15.0,
    ];
    assert_eq!(got, expected);
    assert_eq!(square_side(16), Some(4));
    assert_eq!(square_side(15), None);
}

#[test]
fn patches_take_their_pixels_channel_by_channel() {
    // Two channels of 2 x 4 pixels, patches of 2 x 2.
    assert_eq!(
        unfold(2, 2, 4, 2),
        vec![0, 1, 4, 5, 8, 9, 12, 13, 2, 3, 6, 7, 10, 11, 14, 15]
    );
    let mut all = unfold(3, 4, 6, 2);
    assert_eq!(all[12], 2);
    all.sort();
    assert_eq!(all, (0..72).collect::<Vec<usize>>());
    assert!(unfold(0, 4, 4, 2).is_empty());
}

#[test]
fn image_prompt_expansion_shape() {
    let s = image_prompt_expansion(64);
    assert!(s.starts_with("<fake_token_around_image><global-img>"));
    assert!(s.ends_with("<fake_token_around_image>"));
    assert_eq!(s.matches("<image>").count(), 64);
}

#[test]
fn images_go_where_their_tokens_stand() {
    let ids = vec![1, 9, 9, 2, 3, 9, 9];
    assert_eq!(find_spans(&ids, 9), vec![(1, 3), (5, 7)]);
    let pieces = embed_multimodal(&ids, 7, 2, 9, 2).unwrap();
    assert_eq!(
        pieces,
        vec![
            Piece::Text { start: 0, len: 1 },
            Piece::Image(0),
            Piece::Text { start: 3, len: 2 },
            Piece::Image(1),
        ]
    );
    assert_eq!(
        embed_multimodal(&ids, 7, 0, 9, 2).unwrap(),
        vec![Piece::Text { start: 0, len: 7 }]
    );
    assert_eq!(
        embed_multimodal(&ids, 7, 1, 9, 2).unwrap_err().message(),
        "unsupported media input: found 2 image-token span(s) of len 2 but 1 image(s) were provided"
    );
    assert_eq!(
        embed_multimodal(&ids, 7, 2, 9, 3).unwrap_err().message(),
        "unsupported media input: image-token span has length 2, expected 3"
    );
    assert_eq!(
        embed_multimodal(&ids, 8, 2, 9, 2).unwrap_err().message(),
        "bad shape for tokens: expected [1, 8], got [7]"
    );
    assert!(reject_media(0).is_ok());
    assert_eq!(
        reject_media(2).unwrap_err().message(),
        "unsupported media input: 2 image(s) passed to a text-only model"
    );
}

#[test]
fn staging_twice_is_staging_once() {
    let mut s = StagedWeights::new(meta("llama", 1, pattern(None)));
    s.stage_inner("model.embed_tokens.weight", Opened::Dense(vec![16, 8])).unwrap();
    s.stage_inner("q.weight", Opened::Packed).unwrap();
    s.stage_inner("norm.weight", Opened::Dense(vec![8])).unwrap();
    let names = vec!["model.embed_tokens.weight", "q.weight", "norm.weight"];
    assert_eq!(s.names().clone(), names);
    // Whatever the source gives the second time, nothing changes.
    s.stage_inner("q.weight", Opened::Dense(vec![8, 8])).unwrap();
    s.stage_inner("norm.weight", Opened::Absent).unwrap();
    s.stage_inner("model.embed_tokens.weight", Opened::Packed).unwrap();
    assert_eq!(s.names().clone(), names);
    assert_eq!(s.weight("norm.weight", 1).unwrap(), vec![8]);
    assert_eq!(s.embedding("model.embed_tokens.weight").unwrap(), false);
    // Nor does a failure.
    assert_eq!(
        s.stage_inner("k.weight", Opened::Absent).unwrap_err().message(),
        "missing weight tensor: k.weight"
    );
    assert_eq!(
        s.stage_inner("k.weight", Opened::Unreadable("torn".into())).unwrap_err().message(),
        "torn"
    );
    assert_eq!(
        s.stage_inner("k.weight", Opened::Dense(vec![2, 2, 2])).unwrap_err().message(),
        "k.weight: staging a rank-3 tensor is not supported"
    );
    assert_eq!(
        s.stage_inner("embed_tokens", Opened::Dense(vec![8])).unwrap_err().message(),
        "unexpected rank of tensor embed_tokens"
    );
    assert_eq!(s.names().clone(), names);
    // A packed table is one too, and a packed weight is taken once.
    s.stage_inner("embed_tokens", Opened::Packed).unwrap();
    assert_eq!(s.embedding("embed_tokens").unwrap(), true);
    assert!(matches!(s.linear("q.weight"), Ok(Supplied::Packed)));
    assert!(s.linear("q.weight").is_err());
    s.stage_inner("q.weight", Opened::Packed).unwrap();
    assert!(s.linear("q.weight").is_err());
}

#[test]
fn a_layer_has_a_window_unless_it_is_global() {
    let p = pattern(Some(512));
    for layer in 0..12 {
        let global = (layer + 1) % 6 == 0;
        assert_eq!(p.is_global_layer(layer), global);
        assert_eq!(p.window(layer), if global { None } else { Some(512) });
    }
    assert_eq!(pattern(None).window(3), None);
}

#[test]
fn staged_weights_are_placed_once_and_taken_once() {
    let mut untied = meta("llama", 1, pattern(None));
    untied.tie_word_embeddings = false;
    let mut s = StagedWeights::new(untied);
    assert_eq!(s.metadata().architecture, "llama");
    assert!(!s.metadata().tie_word_embeddings);
    assert_eq!(s.stage("model.embed_tokens.weight"), StageStep::Embedding);
    assert_eq!(s.stage("embed_tokens"), StageStep::Embedding);
    assert_eq!(s.stage("model.norm.weight"), StageStep::Weight);
    s.placed_embedding("model.embed_tokens.weight", true);
    s.placed_packed("q.weight");
    s.place_dense("model.norm.weight", &vec![8]).unwrap();
    s.place_dense("o.weight", &vec![8, 8]).unwrap();
    assert_eq!(s.stage("q.weight"), StageStep::Skip);
    assert_eq!(
        s.place_dense("conv.weight", &vec![2, 2, 2]).unwrap_err().message(),
        "conv.weight: staging a rank-3 tensor is not supported"
    );
    assert_eq!(
        s.names().clone(),
        vec!["model.embed_tokens.weight", "q.weight", "model.norm.weight", "o.weight"]
    );
    assert!(matches!(s.linear("q.weight"), Ok(Supplied::Packed)));
    assert_eq!(
        s.linear("q.weight").unwrap_err().message(),
        "missing weight tensor: q.weight"
    );
    assert!(matches!(s.linear("o.weight"), Ok(Supplied::Dense(_))));
    assert_eq!(s.weight("model.norm.weight", 1).unwrap(), vec![8]);
    assert_eq!(
        s.weight("o.weight", 1).unwrap_err().message(),
        "o.weight was staged with shape [8, 8]; the loader asked for rank 1"
    );
    assert_eq!(s.optional("absent").unwrap(), None);
    assert_eq!(s.optional("model.norm.weight").unwrap(), Some(vec![8]));
    assert!(s.optional("o.weight").is_err());
    assert_eq!(s.embedding("model.embed_tokens.weight").unwrap(), true);
    assert!(s.embedding("model.embed_tokens.weight").is_err());
    s.seal();
    assert!(s.metadata().tie_word_embeddings);
    assert_eq!(s.metadata().hidden_size, HIDDEN);
    s.place_dense("lm_head.weight", &vec![16, 8]).unwrap();
    s.seal();
    assert!(!s.metadata().tie_word_embeddings);
}
