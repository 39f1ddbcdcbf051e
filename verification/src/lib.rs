//! The bookkeeping of a transformer inference engine: which page a token's
//! keys and values live in, how packed weights are laid out, which tensors a
//! checkpoint must hold and what each launch of a kernel covers.
//!
//! Everything here works on plain values. Tensors, devices and floating-point
//! arithmetic belong to the crate that drives this one.

pub mod archspec;
pub mod arith;
pub mod attend;
pub mod blocks;
pub mod cache;
pub mod catalog;
pub mod census;
pub mod config;
pub mod contiguous;
pub mod error;
pub mod format_laws;
pub mod formats;
pub mod gemma;
pub mod generation;
pub mod grid;
pub mod halves;
pub mod kernels;
pub mod kv_quant;
pub mod llama;
pub mod llama_laws;
pub mod loading_laws;
pub mod media;
pub mod metadata;
pub mod numerals;
pub mod paged;
pub mod paged_laws;
pub mod paged_state;
pub mod pages;
pub mod patches;
pub mod probes;
pub mod qlinear;
pub mod quant_linear;
pub mod quant_weight;
pub mod reads;
pub mod registry;
pub mod rotary;
pub mod sessions;
pub mod smolvlm;
pub mod staged;
pub mod text;
pub mod weights;
pub mod whisper;

pub use archspec::{ArchSpec, LayerKind, NormFlavor};
pub use cache::KVCache;
pub use census::{quant_census, QuantCensus};
pub use config::{CacheConfig, CacheKind};
pub use contiguous::{ContiguousKVCache, JoinStep};
pub use error::{ModelError, Result};
pub use formats::{
    repack_q4_0, repack_q4_k, repack_q5_0, repack_q5_k, repack_q6_k, repack_q8_0, QuantFormat,
};
pub use gemma::GemmaPlan;
pub use llama::LlamaPlan;
pub use media::image_prompt_expansion;
pub use metadata::ModelMetadata;
pub use paged::{ArenaStep, AttentionStep, PageStats, PagedKVCache};
pub use paged_state::{ArenaSpan, PageWrite};
pub use pages::PageAllocator;
pub use qlinear::{batched_matmul_summary, try_quant_embedding, try_quant_linear};
pub use quant_linear::QuantizedLinear;
pub use quant_weight::QuantWeight;
pub use registry::ModelRegistry;
pub use smolvlm::SmolVlmPlan;
pub use staged::StagedWeights;
pub use weights::{Q40Weight, Q4KWeight, Q50Weight, Q5KWeight, Q6KWeight, Q80Weight};
pub use whisper::{load_speech_model, WhisperPlan};
