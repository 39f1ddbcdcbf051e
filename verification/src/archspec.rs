//! From the architecture id and the configuration to the knobs of the decoder.
//!
//! What a configuration cannot express is settled here, by the name of the
//! architecture.

use vstd::prelude::*;

use crate::metadata::{Activation, AttentionPattern, Double, ModelMetadata, RopeScaling};
use crate::text::same_text;

verus! {

/// Flavor of the root-mean-square norm.
#[derive(Debug, Clone, Copy, PartialEq, Eq, Structural)]
pub enum NormFlavor {
    /// The weight scales.
    RmsNorm,
    /// One plus the weight scales.
    GemmaRmsNorm,
}

impl Default for NormFlavor {
    fn default() -> (flavor: Self)
        ensures
            flavor == NormFlavor::RmsNorm,
    {
        NormFlavor::RmsNorm
    }
}

/// How one layer attends.
#[derive(Debug, Clone, Copy, PartialEq, Eq, Structural)]
pub enum LayerKind {
    /// To everything.
    Global,
    /// To a window.
    Sliding(usize),
}

/// What the decoder goes by.
#[derive(Debug)]
pub struct ArchSpec {
    /// Activation of the feed-forward block.
    pub activation: Activation,
    /// Flavor of the norms.
    pub norm_flavor: NormFlavor,
    /// Queries and keys are normed per head.
    pub qk_norm: bool,
    /// The outputs of both blocks are normed before they are added.
    pub sandwich_norms: bool,
    /// Embeddings are scaled by the root of the width.
    pub embed_scale_sqrt_hidden: bool,
    /// Cap of the attention logits.
    pub attn_logit_softcap: Option<Double>,
    /// Cap of the output logits.
    pub final_logit_softcap: Option<Double>,
    /// Divisor under the root of the attention scale, in place of the width of
    /// a head.
    pub query_pre_attn_scalar: Option<Double>,
    /// Rotary base of global layers.
    pub rope_theta: Double,
    /// Rotary scaling of global layers.
    pub rope_scaling: RopeScaling,
    /// Rotary base of sliding layers, where it differs.
    pub rope_local_theta: Option<Double>,
    /// How each layer attends.
    pub layers: Vec<LayerKind>,
}

/// The Gemma architectures.
pub open spec fn is_gemma(arch: Seq<char>) -> bool {
    arch == "gemma3"@ || arch == "gemma3_text"@
}

/// The architectures whose first layers are global.
pub open spec fn is_partitioned(arch: Seq<char>) -> bool {
    arch == "qwen2"@ || arch == "qwen3"@
}

/// The architectures all of whose layers slide.
pub open spec fn slides_everywhere(arch: Seq<char>) -> bool {
    arch == "mistral"@ || arch == "phi3"@
}

/// How layer `i` of `n` attends. Where the meaning of a window is not known,
/// the layer is global.
pub open spec fn layer_kind(arch: Seq<char>, pattern: AttentionPattern, n: int, i: int) -> LayerKind {
    match pattern.sliding_window {
        None => LayerKind::Global,
        Some(w) => {
            let global = if is_gemma(arch) {
                (i + 1) % (pattern.pattern as int) == 0
            } else if is_partitioned(arch) {
                i < match pattern.max_window_layers {
                    Some(full) => full as int,
                    None => n,
                }
            } else {
                !slides_everywhere(arch)
            };
            if global {
                LayerKind::Global
            } else {
                LayerKind::Sliding(w)
            }
        },
    }
}

/// The window of a layer.
pub open spec fn window_of(kind: LayerKind) -> Option<usize> {
    match kind {
        LayerKind::Global => None,
        LayerKind::Sliding(w) => Some(w),
    }
}

impl ArchSpec {
    /// The specification is that of a model with this configuration.
    pub open spec fn resolves(&self, meta: ModelMetadata) -> bool {
        let arch = meta.architecture@;
        let pattern = meta.attention_pattern;
        let n = meta.num_hidden_layers;
        &&& self.layers@ == Seq::new(n as nat, |i: int| layer_kind(arch, pattern, n as int, i))
        &&& self.activation == (if is_gemma(arch) {
            Activation::GeluTanh
        } else {
            meta.activation
        })
        &&& self.norm_flavor == (if is_gemma(arch) {
            NormFlavor::GemmaRmsNorm
        } else {
            NormFlavor::RmsNorm
        })
        &&& self.qk_norm == (is_gemma(arch) || arch == "qwen3"@)
        &&& self.sandwich_norms == is_gemma(arch)
        &&& self.embed_scale_sqrt_hidden == is_gemma(arch)
        &&& self.attn_logit_softcap is None
        &&& self.final_logit_softcap is None
        &&& self.query_pre_attn_scalar == pattern.query_pre_attn_scalar
        &&& self.rope_theta == meta.rope_theta
        &&& self.rope_scaling == meta.rope_scaling
        &&& self.rope_local_theta == (if is_gemma(arch) && pattern.sliding_window is Some {
            Some(pattern.rope_local_theta)
        } else {
            None
        })
    }

    /// Settles the knobs of the decoder from a configuration.
    pub fn resolve(meta: &ModelMetadata) -> (spec: Self)
        requires
            is_gemma(meta.architecture@) && meta.attention_pattern.sliding_window is Some
                ==> meta.attention_pattern.pattern > 0,
        ensures
            spec.resolves(*meta),
            spec.rope_theta == meta.rope_theta,
            spec.rope_scaling == meta.rope_scaling,
            spec.query_pre_attn_scalar == meta.attention_pattern.query_pre_attn_scalar,
            spec.layers@.len() == meta.num_hidden_layers,
    {
        let pattern = meta.attention_pattern;
        let n: usize = meta.num_hidden_layers;
        let arch: &str = meta.architecture.as_str();
        let gemma: bool = same_text(arch, "gemma3") || same_text(arch, "gemma3_text");
        let qwen3: bool = same_text(arch, "qwen3");
        let partitioned: bool = same_text(arch, "qwen2") || qwen3;
        let everywhere: bool = same_text(arch, "mistral") || same_text(arch, "phi3");
        let mut layers: Vec<LayerKind> = Vec::new();
        let mut i: usize = 0;
        while i < n
            invariant
                i <= n,
                n == meta.num_hidden_layers,
                pattern == meta.attention_pattern,
                arch@ == meta.architecture@,
                gemma == is_gemma(arch@),
                partitioned == is_partitioned(arch@),
                everywhere == slides_everywhere(arch@),
                gemma && pattern.sliding_window is Some ==> pattern.pattern > 0,
                layers@ == Seq::new(i as nat, |j: int| layer_kind(arch@, pattern, n as int, j)),
            decreases n - i,
        {
            let kind = match pattern.sliding_window {
                None => LayerKind::Global,
                Some(w) => {
                    let global: bool = if gemma {
                        pattern.is_global_layer(i)
                    } else if partitioned {
                        let full: usize = match pattern.max_window_layers {
                            Some(full) => full,
                            None => n,
                        };
                        i < full
                    } else {
                        !everywhere
                    };
                    if global {
                        LayerKind::Global
                    } else {
                        LayerKind::Sliding(w)
                    }
                },
            };
            layers.push(kind);
            i = i + 1;
            assert(layers@ =~= Seq::new(
                i as nat,
                |j: int| layer_kind(arch@, pattern, n as int, j),
            ));
        }
        ArchSpec {
            activation: if gemma {
                Activation::GeluTanh
            } else {
                meta.activation
            },
            norm_flavor: if gemma {
                NormFlavor::GemmaRmsNorm
            } else {
                NormFlavor::RmsNorm
            },
            qk_norm: gemma || qwen3,
            sandwich_norms: gemma,
            embed_scale_sqrt_hidden: gemma,
            attn_logit_softcap: None,
            final_logit_softcap: None,
            query_pre_attn_scalar: pattern.query_pre_attn_scalar,
            rope_theta: meta.rope_theta,
            rope_scaling: meta.rope_scaling,
            rope_local_theta: if gemma && pattern.sliding_window.is_some() {
                Some(pattern.rope_local_theta)
            } else {
                None
            },
            layers,
        }
    }

    /// The window of each layer, as the paged cache takes them.
    pub fn windows(&self) -> (windows: Vec<Option<usize>>)
        ensures
            windows@ == Seq::new(self.layers@.len(), |i: int| window_of(self.layers@[i])),
            forall|i: int|
                0 <= i < windows@.len() ==> match self.layers@[i] {
                    LayerKind::Global => #[trigger] windows@[i] is None,
                    LayerKind::Sliding(w) => windows@[i] == Some(w),
                },
    {
        let mut windows: Vec<Option<usize>> = Vec::new();
        let mut i: usize = 0;
        while i < self.layers.len()
            invariant
                i <= self.layers@.len(),
                windows@ == Seq::new(i as nat, |j: int| window_of(self.layers@[j])),
            decreases self.layers@.len() - i,
        {
            windows.push(
                match self.layers[i] {
                    LayerKind::Global => None,
                    LayerKind::Sliding(w) => Some(w),
                },
            );
            i = i + 1;
            assert(windows@ =~= Seq::new(i as nat, |j: int| window_of(self.layers@[j])));
        }
        windows
    }

    /// Layer `layer` rotates with the tables of sliding layers.
    pub open spec fn rotates_locally(&self, layer: int) -> bool {
        self.rope_local_theta is Some && 0 <= layer < self.layers@.len()
            && self.layers@[layer] is Sliding
    }

    /// Whether layer `layer` rotates with the tables of sliding layers: it
    /// slides, and there are such tables.
    pub fn rotary_for(&self, layer: usize) -> (local: bool)
        ensures
            local == self.rotates_locally(layer as int),
            local <==> self.rope_local_theta is Some && layer < self.layers@.len()
                && self.layers@[layer as int] is Sliding,
    {
        if layer >= self.layers.len() || self.rope_local_theta.is_none() {
            return false;
        }
        match self.layers[layer] {
            LayerKind::Sliding(_) => true,
            LayerKind::Global => false,
        }
    }

    /// The window that layer `layer` attends within.
    pub fn window(&self, layer: usize) -> (window: Option<usize>)
        ensures
            window == (if layer < self.layers@.len() {
                window_of(self.layers@[layer as int])
            } else {
                None
            }),
            forall|w: usize|
                window == Some(w) <==> layer < self.layers@.len() && self.layers@[layer as int]
                    == LayerKind::Sliding(w),
    {
        if layer >= self.layers.len() {
            return None;
        }
        match self.layers[layer] {
            LayerKind::Sliding(w) => Some(w),
            LayerKind::Global => None,
        }
    }
}

/// Without a window in the configuration every layer is global, whatever the
/// architecture.
pub proof fn law_no_window_is_all_global(arch: Seq<char>, pattern: AttentionPattern, n: int, i: int)
    requires
        pattern.sliding_window is None,
    ensures
        layer_kind(arch, pattern, n, i) == LayerKind::Global,
{
}

/// Only layers of the architectures known to slide do so, and then with the
/// window of the configuration.
pub proof fn law_only_known_architectures_slide(
    arch: Seq<char>,
    pattern: AttentionPattern,
    n: int,
    i: int,
)
    ensures
        layer_kind(arch, pattern, n, i) matches LayerKind::Sliding(w) ==> pattern.sliding_window
            == Some(w) && (is_gemma(arch) || is_partitioned(arch) || slides_everywhere(arch)),
{
}

/// What the configuration says of rotation and of the attention scale is kept as
/// it is, whatever the architecture; nothing caps the logits.
pub proof fn law_configuration_is_kept(spec: ArchSpec, meta: ModelMetadata)
    requires
        spec.resolves(meta),
    ensures
        spec.rope_theta == meta.rope_theta,
        spec.rope_scaling == meta.rope_scaling,
        spec.query_pre_attn_scalar == meta.attention_pattern.query_pre_attn_scalar,
        spec.attn_logit_softcap is None,
        spec.final_logit_softcap is None,
        spec.layers@.len() == meta.num_hidden_layers,
{
}

/// Configurations that rotate differently resolve to specifications that do.
pub proof fn law_rotation_is_told_apart(
    a: ArchSpec,
    am: ModelMetadata,
    b: ArchSpec,
    bm: ModelMetadata,
)
    requires
        a.resolves(am),
        b.resolves(bm),
    ensures
        am.rope_scaling != bm.rope_scaling ==> a.rope_scaling != b.rope_scaling,
        am.rope_theta != bm.rope_theta ==> a.rope_theta != b.rope_theta,
{
}

/// What the name of the architecture decides: the Gemma architectures have their
/// own norms, activation and embedding scale, and norm both sides of each block;
/// they and Qwen3 norm queries and keys per head. Every other architecture keeps
/// the activation of its configuration.
pub proof fn law_architecture_decides(spec: ArchSpec, meta: ModelMetadata)
    requires
        spec.resolves(meta),
    ensures
        ({
            let arch = meta.architecture@;
            let gemma = arch == "gemma3"@ || arch == "gemma3_text"@;
            &&& gemma ==> spec.activation == Activation::GeluTanh
            &&& !gemma ==> spec.activation == meta.activation
            &&& spec.norm_flavor == NormFlavor::GemmaRmsNorm <==> gemma
            &&& spec.norm_flavor == NormFlavor::RmsNorm <==> !gemma
            &&& spec.qk_norm <==> gemma || arch == "qwen3"@
            &&& spec.sandwich_norms <==> gemma
            &&& spec.embed_scale_sqrt_hidden <==> gemma
            &&& spec.rope_local_theta is Some <==> gemma && meta.attention_pattern.sliding_window
                is Some
            &&& forall|theta: Double|
                spec.rope_local_theta == Some(theta) ==> theta
                    == meta.attention_pattern.rope_local_theta
        }),
{
}

/// Which layers slide, and how far: in a Gemma model all but each `pattern`-th, in
/// a Qwen model those from `max_window_layers` on, in Mistral and Phi-3 all of
/// them, elsewhere none. Those that slide have the window of the configuration.
pub proof fn law_layers_slide_as_configured(spec: ArchSpec, meta: ModelMetadata, i: int)
    requires
        spec.resolves(meta),
        0 <= i < meta.num_hidden_layers,
    ensures
        ({
            let arch = meta.architecture@;
            let pattern = meta.attention_pattern;
            let kind = spec.layers@[i];
            &&& forall|w: usize|
                kind == LayerKind::Sliding(w) ==> pattern.sliding_window == Some(w)
            &&& pattern.sliding_window is None ==> kind == LayerKind::Global
            &&& pattern.sliding_window is Some ==> {
                &&& arch == "gemma3"@ || arch == "gemma3_text"@ ==> (kind == LayerKind::Global <==> (
                i + 1) % (pattern.pattern as int) == 0)
                &&& arch == "qwen2"@ || arch == "qwen3"@ ==> (kind == LayerKind::Global
                    <==> pattern.max_window_layers is None || i < pattern.max_window_layers->0)
                &&& arch == "mistral"@ || arch == "phi3"@ ==> kind is Sliding
                &&& kind is Sliding ==> arch == "gemma3"@ || arch == "gemma3_text"@ || arch
                    == "qwen2"@ || arch == "qwen3"@ || arch == "mistral"@ || arch == "phi3"@
            }
        }),
{
    lemma_architectures_differ();
}

/// The names of the architectures that may slide are all different.
proof fn lemma_architectures_differ()
    ensures
        "gemma3"@ != "qwen2"@,
        "gemma3"@ != "qwen3"@,
        "gemma3"@ != "mistral"@,
        "gemma3"@ != "phi3"@,
        "gemma3_text"@ != "qwen2"@,
        "gemma3_text"@ != "qwen3"@,
        "gemma3_text"@ != "mistral"@,
        "gemma3_text"@ != "phi3"@,
        "qwen2"@ != "mistral"@,
        "qwen2"@ != "phi3"@,
        "qwen3"@ != "mistral"@,
        "qwen3"@ != "phi3"@,
{
    reveal_strlit("gemma3");
    reveal_strlit("gemma3_text");
    reveal_strlit("qwen2");
    reveal_strlit("qwen3");
    reveal_strlit("mistral");
    reveal_strlit("phi3");
    assert("gemma3"@[0] == 'g' && "gemma3_text"@[0] == 'g');
    assert("qwen2"@[0] == 'q' && "qwen3"@[0] == 'q');
    assert("mistral"@[0] == 'm' && "phi3"@[0] == 'p');
}

/// Of as many neighbouring layers of a Gemma model as its pattern counts, exactly
/// one attends to everything.
pub proof fn law_gemma_has_one_global_layer_in_each_run(
    spec: ArchSpec,
    meta: ModelMetadata,
    start: int,
)
    requires
        spec.resolves(meta),
        meta.architecture@ == "gemma3"@ || meta.architecture@ == "gemma3_text"@,
        meta.attention_pattern.sliding_window is Some,
        meta.attention_pattern.pattern > 0,
        0 <= start,
        start + meta.attention_pattern.pattern <= meta.num_hidden_layers,
    ensures
        exists|i: int|
            start <= i < start + meta.attention_pattern.pattern && #[trigger] spec.layers@[i]
                == LayerKind::Global && forall|j: int|
                start <= j < start + meta.attention_pattern.pattern && #[trigger] spec.layers@[j]
                    == LayerKind::Global ==> j == i,
{
    let n = meta.attention_pattern.pattern as int;
    let r = start % n;
    vstd::arithmetic::div_mod::lemma_mod_bound(start, n);
    vstd::arithmetic::div_mod::lemma_fundamental_div_mod(start, n);
    let at = start + (n - 1 - r);
    let q = start / n;
    assert(at + 1 == (q + 1) * n) by (nonlinear_arith)
        requires
            start == n * q + r,
            at == start + (n - 1 - r),
    ;
    vstd::arithmetic::div_mod::lemma_mod_multiples_basic(q + 1, n);
    assert(spec.layers@[at] == LayerKind::Global);
    assert forall|j: int|
        start <= j < start + n && #[trigger] spec.layers@[j] == LayerKind::Global implies j == at by {
        lemma_architectures_differ();
        assert((j + 1) % n == 0);
        vstd::arithmetic::div_mod::lemma_fundamental_div_mod(j + 1, n);
        let t = (j + 1) / n;
        assert(t == q + 1) by (nonlinear_arith)
            requires
                j + 1 == n * t,
                start == n * q + r,
                0 <= r < n,
                start <= j < start + n,
        ;
        assert(n * t == (q + 1) * n) by (nonlinear_arith)
            requires
                t == q + 1,
        ;
    }
}

} // verus!
