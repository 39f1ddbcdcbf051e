//! What the configuration of a checkpoint says about its model.

use vstd::prelude::*;

verus! {

/// A double-precision number, carried by its bit pattern.
#[derive(Debug, Clone, Copy, PartialEq, Eq, Structural)]
pub struct Double {
    /// Bit pattern.
    pub bits: u64,
}

/// Activation of the feed-forward block.
#[derive(Debug, Clone, Copy, PartialEq, Eq, Structural)]
pub enum Activation {
    /// `x * sigmoid(x)`.
    Silu,
    /// Gaussian error unit, by its tanh approximation.
    GeluTanh,
    /// Gaussian error unit.
    Gelu,
}

/// How rotary frequencies are scaled for longer contexts.
#[derive(Debug, Clone, Copy, PartialEq, Eq, Structural)]
pub enum RopeScaling {
    /// Not at all.
    Unscaled,
    /// All alike.
    Linear {
        /// Divisor of the frequencies.
        factor: Double,
    },
    /// By wavelength.
    Llama3 {
        /// Divisor of the low frequencies.
        factor: Double,
        /// Where low frequencies begin.
        low_freq_factor: Double,
        /// Where high frequencies begin.
        high_freq_factor: Double,
        /// Context that the model was trained with.
        original_max_position_embeddings: usize,
    },
    /// By parts, with a temperature.
    Yarn {
        /// Divisor of the interpolated frequencies.
        factor: Double,
        /// Context that the model was trained with.
        original_max_position_embeddings: usize,
        /// Rotations below which nothing is interpolated.
        beta_fast: Double,
        /// Rotations above which all is interpolated.
        beta_slow: Double,
        /// Temperature, where it is given.
        attention_factor: Option<Double>,
    },
}

/// How the layers of a model attend.
#[derive(Debug, Clone, Copy, PartialEq, Eq, Structural)]
pub struct AttentionPattern {
    /// Window of sliding layers, where there are any.
    pub sliding_window: Option<usize>,
    /// Every how many layers one attends to everything.
    pub pattern: usize,
    /// Layers before the first sliding one, where it is given.
    pub max_window_layers: Option<usize>,
    /// Rotary base of sliding layers.
    pub rope_local_theta: Double,
    /// Divisor under the root of the attention scale, where it is given.
    pub query_pre_attn_scalar: Option<Double>,
}

impl AttentionPattern {
    /// Layer `layer` attends to everything.
    pub open spec fn global(self, layer: int) -> bool {
        self.sliding_window is None || (layer + 1) % (self.pattern as int) == 0
    }

    /// Whether layer `layer` attends to everything: each `pattern`-th does, and
    /// all do where nothing slides.
    pub fn is_global_layer(&self, layer: usize) -> (yes: bool)
        requires
            layer < usize::MAX,
            self.sliding_window is Some ==> self.pattern > 0,
        ensures
            yes == self.global(layer as int),
            self.sliding_window is None ==> yes,
            self.sliding_window is Some ==> (yes <==> (layer + 1) % (self.pattern as int) == 0),
    {
        match self.sliding_window {
            None => true,
            Some(_) => (layer + 1) % self.pattern == 0,
        }
    }

    /// The window that layer `layer` attends within; none where it attends to
    /// everything.
    pub fn window(&self, layer: usize) -> (window: Option<usize>)
        requires
            layer < usize::MAX,
            self.sliding_window is Some ==> self.pattern > 0,
        ensures
            window == (if self.global(layer as int) {
                None
            } else {
                self.sliding_window
            }),
            window is None <==> self.global(layer as int),
            self.sliding_window is None ==> window is None,
            (layer + 1) % (self.pattern as int) == 0 ==> window is None,
            (layer + 1) % (self.pattern as int) != 0 ==> window == self.sliding_window,
    {
        if self.is_global_layer(layer) {
            None
        } else {
            self.sliding_window
        }
    }
}

/// The vision tower of a model.
#[derive(Debug, Clone, Copy, PartialEq, Eq, Structural)]
pub struct VisionConfig {
    /// Width of the tower.
    pub hidden_size: usize,
    /// Layers of the tower.
    pub num_hidden_layers: usize,
    /// Attention heads of the tower.
    pub num_attention_heads: usize,
    /// Side of a patch.
    pub patch_size: usize,
    /// Side of the group of patches that becomes one token.
    pub scale_factor: usize,
    /// Tokens that one image becomes.
    pub image_seq_len: usize,
    /// Token that stands for a piece of an image.
    pub image_token_id: i64,
}

/// The configuration of a checkpoint.
#[derive(Debug, Clone)]
pub struct ModelMetadata {
    /// Architecture id.
    pub architecture: String,
    /// Width of the model.
    pub hidden_size: usize,
    /// Width of the feed-forward block.
    pub intermediate_size: usize,
    /// Layers.
    pub num_hidden_layers: usize,
    /// Query heads.
    pub num_attention_heads: usize,
    /// Key-value heads.
    pub num_key_value_heads: usize,
    /// Width of a head.
    pub head_dim: usize,
    /// Tokens of the vocabulary.
    pub vocab_size: usize,
    /// Longest context.
    pub max_position_embeddings: usize,
    /// The output head is the embedding table.
    pub tie_word_embeddings: bool,
    /// Activation of the feed-forward block.
    pub activation: Activation,
    /// Rotary base.
    pub rope_theta: Double,
    /// Rotary scaling.
    pub rope_scaling: RopeScaling,
    /// How the layers attend.
    pub attention_pattern: AttentionPattern,
    /// The vision tower, where there is one.
    pub vision: Option<VisionConfig>,
}

impl ModelMetadata {
    /// Rows of a query projection.
    pub open spec fn q_rows(&self) -> int {
        self.num_attention_heads * self.head_dim
    }

    /// Rows of a key or value projection.
    pub open spec fn kv_rows(&self) -> int {
        self.num_key_value_heads * self.head_dim
    }

    /// The rows of all projections can be counted.
    pub open spec fn countable(&self) -> bool {
        &&& self.q_rows() + 2 * self.kv_rows() <= usize::MAX
        &&& 2 * self.intermediate_size <= usize::MAX
    }
}

} // verus!
