//! What a model of the Llama family reads from a checkpoint.
//!
//! The family covers plain Llama and its relatives: biases, per-head norms and
//! sandwich norms are taken where the checkpoint or the architecture has them,
//! and projections that a checkpoint fuses are split by rows, so that every
//! checkpoint comes out in the same layout.

use vstd::prelude::*;
use vstd::string::*;

use crate::archspec::{is_gemma, ArchSpec};
use crate::catalog::{lookup, meets_all, settles, Catalog, Demands, Need, TensorEntry};
use crate::error::{two, Result};
use crate::metadata::ModelMetadata;
use crate::text::{decimal, decimal_text, join2, join3};

verus! {

/// A run of rows of a tensor, or all of it.
#[derive(Debug)]
pub struct Part {
    /// Name of the tensor.
    pub tensor: String,
    /// The first row, and how many; all of the tensor where there is none.
    pub rows: Option<(usize, usize)>,
}

/// `part` is this part of this tensor.
pub open spec fn is_part(part: Part, tensor: Seq<char>, rows: Option<(usize, usize)>) -> bool {
    part.tensor@ == tensor && part.rows == rows
}

/// `part` is all of `tensor` if the checkpoint has it, and else nothing.
pub open spec fn is_whole_if(part: Option<Part>, there: bool, tensor: Seq<char>) -> bool {
    match part {
        Some(part) => there && is_part(part, tensor, None),
        None => !there,
    }
}

/// `name` is `tensor` if it is `there`, and else nothing.
pub open spec fn is_name_if(name: Option<String>, there: bool, tensor: Seq<char>) -> bool {
    match name {
        Some(name) => there && name@ == tensor,
        None => !there,
    }
}

/// What one layer reads.
#[derive(Debug)]
pub struct LlamaLayerPlan {
    /// Query projection.
    pub q: Part,
    /// Key projection.
    pub k: Part,
    /// Value projection.
    pub v: Part,
    /// Output projection.
    pub o: String,
    /// Query bias.
    pub q_bias: Option<Part>,
    /// Key bias.
    pub k_bias: Option<Part>,
    /// Value bias.
    pub v_bias: Option<Part>,
    /// Output bias.
    pub o_bias: Option<String>,
    /// Per-head query norm.
    pub q_norm: Option<String>,
    /// Per-head key norm.
    pub k_norm: Option<String>,
    /// Gate projection.
    pub gate: Part,
    /// Up projection.
    pub up: Part,
    /// Down projection.
    pub down: String,
    /// Norm before attention.
    pub input_norm: String,
    /// Norm before the feed-forward block.
    pub pre_mlp_norm: String,
    /// Norm of the attention output.
    pub attn_out_norm: Option<String>,
    /// Norm of the feed-forward output.
    pub mlp_out_norm: Option<String>,
}

/// What a model reads.
#[derive(Debug)]
pub struct LlamaPlan {
    /// Knobs of the decoder.
    pub spec: ArchSpec,
    /// Embedding table.
    pub embed: String,
    /// Output head; the embedding table serves as head where there is none.
    pub lm_head: Option<String>,
    /// Norm before the output head.
    pub final_norm: String,
    /// The layers.
    pub layers: Vec<LlamaLayerPlan>,
}

/// The checkpoint has a tensor of this name.
pub open spec fn lists(entries: Seq<TensorEntry>, name: Seq<char>) -> bool {
    lookup(entries, name) is Some
}

/// A need for a tensor.
pub open spec fn need(name: Seq<char>, rank: int) -> Need {
    Need::Present { name, rank }
}

/// A need for a tensor that may be absent.
pub open spec fn maybe(name: Seq<char>, rank: int) -> Need {
    Need::Optional { name, rank }
}

/// The prefix of names, with the dot behind it.
pub open spec fn dotted(prefix: Seq<char>) -> Seq<char> {
    if prefix.len() == 0 {
        prefix
    } else {
        prefix + "."@
    }
}

/// The prefix of the names of layer `i`.
pub open spec fn layer_name(prefix: Seq<char>, i: int) -> Seq<char> {
    dotted(prefix) + "layers."@ + decimal(i)
}

/// Rows of a fused attention projection.
pub open spec fn fused_rows(meta: ModelMetadata) -> usize {
    (meta.q_rows() + 2 * meta.kv_rows()) as usize
}

/// The needs of the attention projections of the layer with prefix `p`: the
/// three split ones where the query projection is there, or else the fused one.
pub open spec fn attention_needs(
    meta: ModelMetadata,
    entries: Seq<TensorEntry>,
    p: Seq<char>,
) -> Seq<Need> {
    if lists(entries, p + ".self_attn.q_proj.weight"@) {
        seq![
            need(p + ".self_attn.q_proj.weight"@, 2),
            need(p + ".self_attn.k_proj.weight"@, 2),
            need(p + ".self_attn.v_proj.weight"@, 2),
        ]
    } else {
        seq![
            need(p + ".self_attn.qkv_proj.weight"@, 2),
            Need::Rows { name: p + ".self_attn.qkv_proj.weight"@, rows: fused_rows(meta) },
            maybe(p + ".self_attn.qkv_proj.bias"@, 1),
            Need::OptionalRows { name: p + ".self_attn.qkv_proj.bias"@, rows: fused_rows(meta) },
        ]
    }
}

/// The shapes that the attention projections must have.
pub open spec fn attention_shapes(
    meta: ModelMetadata,
    entries: Seq<TensorEntry>,
    p: Seq<char>,
) -> Seq<Need> {
    let q = p + ".self_attn.q_proj.weight"@;
    let k = p + ".self_attn.k_proj.weight"@;
    let q_rows = meta.q_rows() as usize;
    let kv_rows = meta.kv_rows() as usize;
    if lists(entries, q) {
        seq![
            Need::Shape { label: q, name: q, expected: seq![q_rows, meta.hidden_size] },
            Need::Shape { label: k, name: k, expected: seq![kv_rows, meta.hidden_size] },
        ]
    } else {
        let fused = p + ".self_attn.qkv_proj.weight"@;
        seq![
            Need::PartShape { label: q, name: fused, rows: q_rows, cols: meta.hidden_size },
            Need::PartShape { label: k, name: fused, rows: kv_rows, cols: meta.hidden_size },
        ]
    }
}

/// The needs of the input projections of the feed-forward block.
pub open spec fn mlp_needs(meta: ModelMetadata, entries: Seq<TensorEntry>, p: Seq<char>) -> Seq<
    Need,
> {
    if lists(entries, p + ".mlp.gate_proj.weight"@) {
        seq![need(p + ".mlp.gate_proj.weight"@, 2), need(p + ".mlp.up_proj.weight"@, 2)]
    } else {
        seq![
            need(p + ".mlp.gate_up_proj.weight"@, 2),
            Need::Rows {
                name: p + ".mlp.gate_up_proj.weight"@,
                rows: (2 * meta.intermediate_size) as usize,
            },
        ]
    }
}

/// The attention projections share a fused bias.
pub open spec fn has_fused_bias(entries: Seq<TensorEntry>, p: Seq<char>) -> bool {
    !lists(entries, p + ".self_attn.q_proj.weight"@) && lists(
        entries,
        p + ".self_attn.qkv_proj.bias"@,
    )
}

/// The needs of the biases: taken where they are there, whatever the
/// configuration says.
pub open spec fn bias_needs(entries: Seq<TensorEntry>, p: Seq<char>) -> Seq<Need> {
    if has_fused_bias(entries, p) {
        seq![maybe(p + ".self_attn.o_proj.bias"@, 1)]
    } else {
        seq![
            maybe(p + ".self_attn.q_proj.bias"@, 1),
            maybe(p + ".self_attn.k_proj.bias"@, 1),
            maybe(p + ".self_attn.v_proj.bias"@, 1),
            maybe(p + ".self_attn.o_proj.bias"@, 1),
        ]
    }
}

/// The needs of the per-head norms.
pub open spec fn qk_norm_needs(qk_norm: bool, p: Seq<char>) -> Seq<Need> {
    if qk_norm {
        seq![
            maybe(p + ".self_attn.q_norm.weight"@, 1),
            maybe(p + ".self_attn.k_norm.weight"@, 1),
        ]
    } else {
        Seq::empty()
    }
}

/// The name of the norm before the feed-forward block.
pub open spec fn pre_mlp_name(sandwich: bool, p: Seq<char>) -> Seq<char> {
    if sandwich {
        p + ".pre_feedforward_layernorm.weight"@
    } else {
        p + ".post_attention_layernorm.weight"@
    }
}

/// The needs of the down projection and the norms before the blocks.
pub open spec fn tail_needs(sandwich: bool, p: Seq<char>) -> Seq<Need> {
    seq![
        need(p + ".mlp.down_proj.weight"@, 2),
        need(p + ".input_layernorm.weight"@, 1),
        need(pre_mlp_name(sandwich, p), 1),
    ]
}

/// The needs of the norms behind the blocks.
pub open spec fn sandwich_needs(sandwich: bool, p: Seq<char>) -> Seq<Need> {
    if sandwich {
        seq![
            maybe(p + ".post_attention_layernorm.weight"@, 1),
            maybe(p + ".post_feedforward_layernorm.weight"@, 1),
        ]
    } else {
        Seq::empty()
    }
}

/// The needs of the layer with prefix `p`, in the order in which it reads.
pub open spec fn layer_needs(
    meta: ModelMetadata,
    qk_norm: bool,
    sandwich: bool,
    entries: Seq<TensorEntry>,
    p: Seq<char>,
) -> Seq<Need> {
    attention_needs(meta, entries, p) + seq![need(p + ".self_attn.o_proj.weight"@, 2)]
        + attention_shapes(meta, entries, p) + mlp_needs(meta, entries, p) + bias_needs(
        entries,
        p,
    ) + qk_norm_needs(qk_norm, p) + tail_needs(sandwich, p) + sandwich_needs(sandwich, p)
}

/// The needs of the first `count` layers.
pub open spec fn layers_needs(
    meta: ModelMetadata,
    qk_norm: bool,
    sandwich: bool,
    entries: Seq<TensorEntry>,
    prefix: Seq<char>,
    count: int,
) -> Seq<Need>
    decreases count,
{
    if count <= 0 {
        Seq::empty()
    } else {
        layers_needs(meta, qk_norm, sandwich, entries, prefix, count - 1) + layer_needs(
            meta,
            qk_norm,
            sandwich,
            entries,
            layer_name(prefix, count - 1),
        )
    }
}

/// The model has an output head of its own: the configuration does not tie it,
/// and the checkpoint has it.
pub open spec fn own_head(meta: ModelMetadata, entries: Seq<TensorEntry>) -> bool {
    !meta.tie_word_embeddings && lists(entries, "lm_head.weight"@)
}

/// The needs outside the layers.
pub open spec fn head_needs(
    meta: ModelMetadata,
    entries: Seq<TensorEntry>,
    prefix: Seq<char>,
) -> Seq<Need> {
    let embed = dotted(prefix) + "embed_tokens.weight"@;
    let shape = seq![meta.vocab_size, meta.hidden_size];
    seq![
        need(embed, 2),
        Need::Shape { label: "embed_tokens.weight"@, name: embed, expected: shape },
    ] + (if own_head(meta, entries) {
        seq![
            need("lm_head.weight"@, 2),
            Need::Shape {
                label: "lm_head.weight"@,
                name: "lm_head.weight"@,
                expected: shape,
            },
        ]
    } else {
        Seq::empty()
    }) + seq![need(dotted(prefix) + "norm.weight"@, 1)]
}

/// Queries and keys are normed per head in this architecture.
pub open spec fn norms_heads(arch: Seq<char>) -> bool {
    is_gemma(arch) || arch == "qwen3"@
}

/// All needs of a model whose names have the prefix `prefix`.
pub open spec fn llama_needs(
    meta: ModelMetadata,
    entries: Seq<TensorEntry>,
    prefix: Seq<char>,
) -> Seq<Need> {
    let arch = meta.architecture@;
    head_needs(meta, entries, prefix) + layers_needs(
        meta,
        norms_heads(arch),
        is_gemma(arch),
        entries,
        prefix,
        meta.num_hidden_layers as int,
    )
}

/// What a layer reads for its attention.
pub open spec fn attention_planned(
    layer: LlamaLayerPlan,
    meta: ModelMetadata,
    entries: Seq<TensorEntry>,
    p: Seq<char>,
) -> bool {
    let q = meta.q_rows() as usize;
    let kv = meta.kv_rows() as usize;
    let qkv = (meta.q_rows() + meta.kv_rows()) as usize;
    let weight = p + ".self_attn.qkv_proj.weight"@;
    let bias = p + ".self_attn.qkv_proj.bias"@;
    &&& if lists(entries, p + ".self_attn.q_proj.weight"@) {
        &&& is_part(layer.q, p + ".self_attn.q_proj.weight"@, None)
        &&& is_part(layer.k, p + ".self_attn.k_proj.weight"@, None)
        &&& is_part(layer.v, p + ".self_attn.v_proj.weight"@, None)
    } else {
        &&& is_part(layer.q, weight, Some((0usize, q)))
        &&& is_part(layer.k, weight, Some((q, kv)))
        &&& is_part(layer.v, weight, Some((qkv, kv)))
    }
    &&& if has_fused_bias(entries, p) {
        &&& layer.q_bias matches Some(part) && is_part(part, bias, Some((0usize, q)))
        &&& layer.k_bias matches Some(part) && is_part(part, bias, Some((q, kv)))
        &&& layer.v_bias matches Some(part) && is_part(part, bias, Some((qkv, kv)))
    } else {
        &&& is_whole_if(
            layer.q_bias,
            lists(entries, p + ".self_attn.q_proj.bias"@),
            p + ".self_attn.q_proj.bias"@,
        )
        &&& is_whole_if(
            layer.k_bias,
            lists(entries, p + ".self_attn.k_proj.bias"@),
            p + ".self_attn.k_proj.bias"@,
        )
        &&& is_whole_if(
            layer.v_bias,
            lists(entries, p + ".self_attn.v_proj.bias"@),
            p + ".self_attn.v_proj.bias"@,
        )
    }
    &&& layer.o@ == p + ".self_attn.o_proj.weight"@
    &&& is_name_if(
        layer.o_bias,
        lists(entries, p + ".self_attn.o_proj.bias"@),
        p + ".self_attn.o_proj.bias"@,
    )
}

/// What a layer reads for its feed-forward block and its norms.
pub open spec fn rest_planned(
    layer: LlamaLayerPlan,
    meta: ModelMetadata,
    qk_norm: bool,
    sandwich: bool,
    entries: Seq<TensorEntry>,
    p: Seq<char>,
) -> bool {
    let wide = meta.intermediate_size;
    let fused = p + ".mlp.gate_up_proj.weight"@;
    &&& if lists(entries, p + ".mlp.gate_proj.weight"@) {
        &&& is_part(layer.gate, p + ".mlp.gate_proj.weight"@, None)
        &&& is_part(layer.up, p + ".mlp.up_proj.weight"@, None)
    } else {
        &&& is_part(layer.gate, fused, Some((0usize, wide)))
        &&& is_part(layer.up, fused, Some((wide, wide)))
    }
    &&& layer.down@ == p + ".mlp.down_proj.weight"@
    &&& layer.input_norm@ == p + ".input_layernorm.weight"@
    &&& layer.pre_mlp_norm@ == pre_mlp_name(sandwich, p)
    &&& is_name_if(
        layer.q_norm,
        qk_norm && lists(entries, p + ".self_attn.q_norm.weight"@),
        p + ".self_attn.q_norm.weight"@,
    )
    &&& is_name_if(
        layer.k_norm,
        qk_norm && lists(entries, p + ".self_attn.k_norm.weight"@),
        p + ".self_attn.k_norm.weight"@,
    )
    &&& is_name_if(
        layer.attn_out_norm,
        sandwich && lists(entries, p + ".post_attention_layernorm.weight"@),
        p + ".post_attention_layernorm.weight"@,
    )
    &&& is_name_if(
        layer.mlp_out_norm,
        sandwich && lists(entries, p + ".post_feedforward_layernorm.weight"@),
        p + ".post_feedforward_layernorm.weight"@,
    )
}

/// What the layer with prefix `p` reads.
pub open spec fn layer_planned(
    layer: LlamaLayerPlan,
    meta: ModelMetadata,
    qk_norm: bool,
    sandwich: bool,
    entries: Seq<TensorEntry>,
    p: Seq<char>,
) -> bool {
    attention_planned(layer, meta, entries, p) && rest_planned(
        layer,
        meta,
        qk_norm,
        sandwich,
        entries,
        p,
    )
}

/// What a model reads.
pub open spec fn llama_planned(
    plan: LlamaPlan,
    meta: ModelMetadata,
    entries: Seq<TensorEntry>,
    prefix: Seq<char>,
) -> bool {
    let arch = meta.architecture@;
    &&& plan.spec.resolves(meta)
    &&& plan.embed@ == dotted(prefix) + "embed_tokens.weight"@
    &&& is_name_if(plan.lm_head, own_head(meta, entries), "lm_head.weight"@)
    &&& plan.final_norm@ == dotted(prefix) + "norm.weight"@
    &&& plan.layers@.len() == meta.num_hidden_layers
    &&& forall|i: int|
        0 <= i < plan.layers@.len() ==> layer_planned(
            #[trigger] plan.layers@[i],
            meta,
            norms_heads(arch),
            is_gemma(arch),
            entries,
            layer_name(prefix, i),
        )
}

/// All of a tensor.
fn whole(tensor: String) -> (part: Part)
    ensures
        is_part(part, tensor@, None),
{
    Part { tensor, rows: None }
}

/// A run of rows of a tensor.
fn run(tensor: String, start: usize, rows: usize) -> (part: Part)
    ensures
        is_part(part, tensor@, Some((start, rows))),
{
    Part { tensor, rows: Some((start, rows)) }
}

/// All of a tensor, if the checkpoint has it.
fn whole_if(catalog: &Catalog, tensor: String) -> (part: Option<Part>)
    ensures
        is_whole_if(part, lists(catalog.listed(), tensor@), tensor@),
{
    if catalog.has(tensor.as_str()) {
        Some(whole(tensor))
    } else {
        None
    }
}

/// The name of a tensor, if it is asked for and the checkpoint has it.
fn name_if(catalog: &Catalog, wanted: bool, tensor: String) -> (name: Option<String>)
    ensures
        is_name_if(name, wanted && lists(catalog.listed(), tensor@), tensor@),
{
    if wanted && catalog.has(tensor.as_str()) {
        Some(tensor)
    } else {
        None
    }
}

/// States the needs of the attention block of a layer.
fn demand_attention(
    demands: &mut Demands,
    meta: &ModelMetadata,
    catalog: &Catalog,
    p: &str,
    split: bool,
    q_rows: usize,
    kv_rows: usize,
)
    requires
        meta.countable(),
        q_rows == meta.q_rows(),
        kv_rows == meta.kv_rows(),
        split == lists(catalog.listed(), p@ + ".self_attn.q_proj.weight"@),
    ensures
        final(demands)@ == old(demands)@ + attention_needs(*meta, catalog.listed(), p@) + seq![
            need(p@ + ".self_attn.o_proj.weight"@, 2),
        ] + attention_shapes(*meta, catalog.listed(), p@),
{
    let ghost before = demands@;
    let ghost entries = catalog.listed();
    if split {
        demands.present(join2(p, ".self_attn.q_proj.weight"), 2);
        demands.present(join2(p, ".self_attn.k_proj.weight"), 2);
        demands.present(join2(p, ".self_attn.v_proj.weight"), 2);
    } else {
        let rows: usize = q_rows + kv_rows + kv_rows;
        demands.present(join2(p, ".self_attn.qkv_proj.weight"), 2);
        demands.rows(join2(p, ".self_attn.qkv_proj.weight"), rows);
        demands.optional(join2(p, ".self_attn.qkv_proj.bias"), 1);
        demands.optional_rows(join2(p, ".self_attn.qkv_proj.bias"), rows);
    }
    assert(demands@ =~= before + attention_needs(*meta, entries, p@));
    demands.present(join2(p, ".self_attn.o_proj.weight"), 2);
    let ghost so_far = demands@;
    assert(so_far =~= before + attention_needs(*meta, entries, p@) + seq![
        need(p@ + ".self_attn.o_proj.weight"@, 2),
    ]);
    let q: String = join2(p, ".self_attn.q_proj.weight");
    let k: String = join2(p, ".self_attn.k_proj.weight");
    if split {
        demands.shape(q.clone(), q, two(q_rows, meta.hidden_size));
        demands.shape(k.clone(), k, two(kv_rows, meta.hidden_size));
    } else {
        let fused: String = join2(p, ".self_attn.qkv_proj.weight");
        demands.part_shape(q, fused.clone(), q_rows, meta.hidden_size);
        demands.part_shape(k, fused, kv_rows, meta.hidden_size);
    }
    assert(demands@ =~= so_far + attention_shapes(*meta, entries, p@));
}

/// States the needs of the inputs of the feed-forward block of a layer.
fn demand_mlp(
    demands: &mut Demands,
    meta: &ModelMetadata,
    catalog: &Catalog,
    p: &str,
    split: bool,
)
    requires
        meta.countable(),
        split == lists(catalog.listed(), p@ + ".mlp.gate_proj.weight"@),
    ensures
        final(demands)@ == old(demands)@ + mlp_needs(*meta, catalog.listed(), p@),
{
    let ghost before = demands@;
    if split {
        demands.present(join2(p, ".mlp.gate_proj.weight"), 2);
        demands.present(join2(p, ".mlp.up_proj.weight"), 2);
    } else {
        demands.present(join2(p, ".mlp.gate_up_proj.weight"), 2);
        demands.rows(
            join2(p, ".mlp.gate_up_proj.weight"),
            meta.intermediate_size + meta.intermediate_size,
        );
    }
    assert(demands@ =~= before + mlp_needs(*meta, catalog.listed(), p@));
}

/// States the needs of the biases and the per-head norms of a layer.
fn demand_biases(demands: &mut Demands, catalog: &Catalog, p: &str, fused_bias: bool, qk_norm: bool)
    requires
        fused_bias == has_fused_bias(catalog.listed(), p@),
    ensures
        final(demands)@ == old(demands)@ + bias_needs(catalog.listed(), p@) + qk_norm_needs(
            qk_norm,
            p@,
        ),
{
    let ghost before = demands@;
    if !fused_bias {
        demands.optional(join2(p, ".self_attn.q_proj.bias"), 1);
        demands.optional(join2(p, ".self_attn.k_proj.bias"), 1);
        demands.optional(join2(p, ".self_attn.v_proj.bias"), 1);
    }
    demands.optional(join2(p, ".self_attn.o_proj.bias"), 1);
    let ghost so_far = demands@;
    assert(so_far =~= before + bias_needs(catalog.listed(), p@));
    if qk_norm {
        demands.optional(join2(p, ".self_attn.q_norm.weight"), 1);
        demands.optional(join2(p, ".self_attn.k_norm.weight"), 1);
    }
    assert(demands@ =~= so_far + qk_norm_needs(qk_norm, p@));
}

/// States the needs of the down projection and the norms around the blocks of a
/// layer.
fn demand_norms(demands: &mut Demands, p: &str, sandwich: bool)
    ensures
        final(demands)@ == old(demands)@ + tail_needs(sandwich, p@) + sandwich_needs(sandwich, p@),
{
    let ghost before = demands@;
    demands.present(join2(p, ".mlp.down_proj.weight"), 2);
    demands.present(join2(p, ".input_layernorm.weight"), 1);
    demands.present(pre_mlp(p, sandwich), 1);
    let ghost so_far = demands@;
    assert(so_far =~= before + tail_needs(sandwich, p@));
    if sandwich {
        demands.optional(join2(p, ".post_attention_layernorm.weight"), 1);
        demands.optional(join2(p, ".post_feedforward_layernorm.weight"), 1);
    }
    assert(demands@ =~= so_far + sandwich_needs(sandwich, p@));
}

/// The name of the norm before the feed-forward block.
fn pre_mlp(p: &str, sandwich: bool) -> (name: String)
    ensures
        name@ == pre_mlp_name(sandwich, p@),
{
    if sandwich {
        join2(p, ".pre_feedforward_layernorm.weight")
    } else {
        join2(p, ".post_attention_layernorm.weight")
    }
}

/// States the needs of one layer.
fn demand_layer(
    demands: &mut Demands,
    meta: &ModelMetadata,
    catalog: &Catalog,
    p: &str,
    qk_norm: bool,
    sandwich: bool,
)
    requires
        meta.countable(),
    ensures
        final(demands)@ == old(demands)@ + layer_needs(
            *meta,
            qk_norm,
            sandwich,
            catalog.listed(),
            p@,
        ),
{
    let ghost before = demands@;
    let ghost entries = catalog.listed();
    proof {
        lemma_rows_nonnegative(*meta);
    }
    let q_rows: usize = meta.num_attention_heads * meta.head_dim;
    let kv_rows: usize = meta.num_key_value_heads * meta.head_dim;
    let split: bool = catalog.has(join2(p, ".self_attn.q_proj.weight").as_str());
    let fused_bias: bool = !split && catalog.has(join2(p, ".self_attn.qkv_proj.bias").as_str());
    let split_mlp: bool = catalog.has(join2(p, ".mlp.gate_proj.weight").as_str());
    demand_attention(demands, meta, catalog, p, split, q_rows, kv_rows);
    demand_mlp(demands, meta, catalog, p, split_mlp);
    demand_biases(demands, catalog, p, fused_bias, qk_norm);
    demand_norms(demands, p, sandwich);
    assert(demands@ =~= before + layer_needs(*meta, qk_norm, sandwich, entries, p@));
}

/// Row counts are not negative.
proof fn lemma_rows_nonnegative(meta: ModelMetadata)
    ensures
        meta.q_rows() >= 0,
        meta.kv_rows() >= 0,
{
    assert(meta.q_rows() >= 0 && meta.kv_rows() >= 0) by (nonlinear_arith)
        requires
            meta.q_rows() == meta.num_attention_heads * meta.head_dim,
            meta.kv_rows() == meta.num_key_value_heads * meta.head_dim,
    ;
}

/// Plans one layer.
fn plan_layer(
    meta: &ModelMetadata,
    catalog: &Catalog,
    p: &str,
    qk_norm: bool,
    sandwich: bool,
) -> (layer: LlamaLayerPlan)
    requires
        meta.countable(),
    ensures
        layer_planned(layer, *meta, qk_norm, sandwich, catalog.listed(), p@),
{
    proof {
        lemma_rows_nonnegative(*meta);
    }
    let q_rows: usize = meta.num_attention_heads * meta.head_dim;
    let kv_rows: usize = meta.num_key_value_heads * meta.head_dim;
    let split: bool = catalog.has(join2(p, ".self_attn.q_proj.weight").as_str());
    let fused_bias: bool = !split && catalog.has(join2(p, ".self_attn.qkv_proj.bias").as_str());
    let split_mlp: bool = catalog.has(join2(p, ".mlp.gate_proj.weight").as_str());
    let (q, k, v) = if split {
        (
            whole(join2(p, ".self_attn.q_proj.weight")),
            whole(join2(p, ".self_attn.k_proj.weight")),
            whole(join2(p, ".self_attn.v_proj.weight")),
        )
    } else {
        let fused: String = join2(p, ".self_attn.qkv_proj.weight");
        (
            run(fused.clone(), 0, q_rows),
            run(fused.clone(), q_rows, kv_rows),
            run(fused, q_rows + kv_rows, kv_rows),
        )
    };
    let (q_bias, k_bias, v_bias) = if fused_bias {
        let fused: String = join2(p, ".self_attn.qkv_proj.bias");
        (
            Some(run(fused.clone(), 0, q_rows)),
            Some(run(fused.clone(), q_rows, kv_rows)),
            Some(run(fused, q_rows + kv_rows, kv_rows)),
        )
    } else {
        (
            whole_if(catalog, join2(p, ".self_attn.q_proj.bias")),
            whole_if(catalog, join2(p, ".self_attn.k_proj.bias")),
            whole_if(catalog, join2(p, ".self_attn.v_proj.bias")),
        )
    };
    let (gate, up) = if split_mlp {
        (whole(join2(p, ".mlp.gate_proj.weight")), whole(join2(p, ".mlp.up_proj.weight")))
    } else {
        let wide: usize = meta.intermediate_size;
        let fused: String = join2(p, ".mlp.gate_up_proj.weight");
        (run(fused.clone(), 0, wide), run(fused, wide, wide))
    };
    LlamaLayerPlan {
        q,
        k,
        v,
        o: join2(p, ".self_attn.o_proj.weight"),
        q_bias,
        k_bias,
        v_bias,
        o_bias: name_if(catalog, true, join2(p, ".self_attn.o_proj.bias")),
        q_norm: name_if(catalog, qk_norm, join2(p, ".self_attn.q_norm.weight")),
        k_norm: name_if(catalog, qk_norm, join2(p, ".self_attn.k_norm.weight")),
        gate,
        up,
        down: join2(p, ".mlp.down_proj.weight"),
        input_norm: join2(p, ".input_layernorm.weight"),
        pre_mlp_norm: pre_mlp(p, sandwich),
        attn_out_norm: name_if(
            catalog,
            sandwich,
            join2(p, ".post_attention_layernorm.weight"),
        ),
        mlp_out_norm: name_if(
            catalog,
            sandwich,
            join2(p, ".post_feedforward_layernorm.weight"),
        ),
    }
}

/// The prefix of the names of a checkpoint: those of a language model are under
/// `model`, those of a bare base model have none.
pub open spec fn detected_prefix(entries: Seq<TensorEntry>) -> Seq<char> {
    if lists(entries, "model.embed_tokens.weight"@) || lists(entries, "model.embed_tokens"@) {
        "model"@
    } else {
        ""@
    }
}

impl LlamaPlan {
    /// Plans what a model whose names have the prefix `prefix` reads. The first
    /// need that the checkpoint does not meet is the error.
    pub fn load_with_prefix(meta: &ModelMetadata, catalog: &Catalog, prefix: &str) -> (r: Result<
        LlamaPlan,
    >)
        requires
            meta.countable(),
            is_gemma(meta.architecture@) && meta.attention_pattern.sliding_window is Some
                ==> meta.attention_pattern.pattern > 0,
        ensures
            settles(catalog.listed(), llama_needs(*meta, catalog.listed(), prefix@), r),
            r matches Ok(plan) ==> llama_planned(plan, *meta, catalog.listed(), prefix@),
    {
        let ghost entries = catalog.listed();
        let ghost arch = meta.architecture@;
        let spec = ArchSpec::resolve(meta);
        let dot: String = if prefix.is_empty() {
            let empty: String = prefix.to_owned();
            empty
        } else {
            join2(prefix, ".")
        };
        assert(dot@ == dotted(prefix@));
        let embed: String = join2(dot.as_str(), "embed_tokens.weight");
        let final_norm: String = join2(dot.as_str(), "norm.weight");
        let own: bool = !meta.tie_word_embeddings && catalog.has("lm_head.weight");
        let mut demands: Demands = Demands::new();
        demands.present(embed.clone(), 2);
        demands.shape(
            "embed_tokens.weight".to_owned(),
            embed.clone(),
            two(meta.vocab_size, meta.hidden_size),
        );
        if own {
            demands.present("lm_head.weight".to_owned(), 2);
            demands.shape(
                "lm_head.weight".to_owned(),
                "lm_head.weight".to_owned(),
                two(meta.vocab_size, meta.hidden_size),
            );
        }
        demands.present(final_norm.clone(), 1);
        let ghost head = head_needs(*meta, entries, prefix@);
        assert(demands@ =~= head);
        assert(demands@ =~= head + layers_needs(
            *meta,
            norms_heads(arch),
            is_gemma(arch),
            entries,
            prefix@,
            0,
        ));
        let mut layers: Vec<LlamaLayerPlan> = Vec::new();
        let mut i: usize = 0;
        while i < meta.num_hidden_layers
            invariant
                i <= meta.num_hidden_layers,
                meta.countable(),
                entries == catalog.listed(),
                arch == meta.architecture@,
                dot@ == dotted(prefix@),
                spec.resolves(*meta),
                demands@ == head + layers_needs(
                    *meta,
                    norms_heads(arch),
                    is_gemma(arch),
                    entries,
                    prefix@,
                    i as int,
                ),
                layers@.len() == i,
                forall|j: int|
                    0 <= j < i ==> layer_planned(
                        #[trigger] layers@[j],
                        *meta,
                        norms_heads(arch),
                        is_gemma(arch),
                        entries,
                        layer_name(prefix@, j),
                    ),
            decreases meta.num_hidden_layers - i,
        {
            let number: String = decimal_text(i);
            let p: String = join3(dot.as_str(), "layers.", number.as_str());
            demand_layer(
                &mut demands,
                meta,
                catalog,
                p.as_str(),
                spec.qk_norm,
                spec.sandwich_norms,
            );
            layers.push(
                plan_layer(meta, catalog, p.as_str(), spec.qk_norm, spec.sandwich_norms),
            );
            i = i + 1;
            assert(demands@ =~= head + layers_needs(
                *meta,
                norms_heads(arch),
                is_gemma(arch),
                entries,
                prefix@,
                i as int,
            ));
        }
        match catalog.settle(&demands) {
            Err(error) => Err(error),
            Ok(()) => {
                let lm_head: Option<String> = if own {
                    Some("lm_head.weight".to_owned())
                } else {
                    None
                };
                Ok(LlamaPlan { spec, embed, lm_head, final_norm, layers })
            },
        }
    }

    /// Plans what a model reads, with the prefix that the names of the checkpoint
    /// show.
    pub fn load(meta: &ModelMetadata, catalog: &Catalog) -> (r: Result<LlamaPlan>)
        requires
            meta.countable(),
            is_gemma(meta.architecture@) && meta.attention_pattern.sliding_window is Some
                ==> meta.attention_pattern.pattern > 0,
        ensures
            settles(
                catalog.listed(),
                llama_needs(*meta, catalog.listed(), detected_prefix(catalog.listed())),
                r,
            ),
            r matches Ok(plan) ==> llama_planned(
                plan,
                *meta,
                catalog.listed(),
                detected_prefix(catalog.listed()),
            ),
    {
        if catalog.has("model.embed_tokens.weight") || catalog.has("model.embed_tokens") {
            LlamaPlan::load_with_prefix(meta, catalog, "model")
        } else {
            LlamaPlan::load_with_prefix(meta, catalog, "")
        }
    }
}

/// The rows of a tensor that a part takes.
pub open spec fn part_rows<V>(part: Part, rows: Seq<V>) -> Seq<V> {
    match part.rows {
        None => rows,
        Some((start, count)) => rows.subrange(start as int, start + count),
    }
}

/// A fused attention projection gives each of the three exactly the rows that
/// were fused: where the fused tensor is the split ones behind one another, the
/// layer gets what it would get from the split checkpoint.
pub proof fn law_fused_attention_matches_split<V>(
    layer: LlamaLayerPlan,
    meta: ModelMetadata,
    entries: Seq<TensorEntry>,
    p: Seq<char>,
    q: Seq<V>,
    k: Seq<V>,
    v: Seq<V>,
)
    requires
        meta.countable(),
        attention_planned(layer, meta, entries, p),
        !lists(entries, p + ".self_attn.q_proj.weight"@),
        q.len() == meta.q_rows(),
        k.len() == meta.kv_rows(),
        v.len() == meta.kv_rows(),
    ensures
        (q + k + v).len() == fused_rows(meta),
        part_rows(layer.q, q + k + v) == q,
        part_rows(layer.k, q + k + v) == k,
        part_rows(layer.v, q + k + v) == v,
        has_fused_bias(entries, p) ==> layer.q_bias is Some && layer.k_bias is Some
            && layer.v_bias is Some && part_rows(layer.q_bias->0, q + k + v) == q && part_rows(
            layer.k_bias->0,
            q + k + v,
        ) == k && part_rows(layer.v_bias->0, q + k + v) == v,
{
    let fused = q + k + v;
    assert(fused.subrange(0, q.len() as int) =~= q);
    assert(fused.subrange(q.len() as int, (q.len() + k.len()) as int) =~= k);
    assert(fused.subrange((q.len() + k.len()) as int, fused.len() as int) =~= v);
}

/// A fused feed-forward projection gives both halves exactly the rows that were
/// fused.
pub proof fn law_fused_mlp_matches_split<V>(
    layer: LlamaLayerPlan,
    meta: ModelMetadata,
    qk_norm: bool,
    sandwich: bool,
    entries: Seq<TensorEntry>,
    p: Seq<char>,
    gate: Seq<V>,
    up: Seq<V>,
)
    requires
        meta.countable(),
        rest_planned(layer, meta, qk_norm, sandwich, entries, p),
        !lists(entries, p + ".mlp.gate_proj.weight"@),
        gate.len() == meta.intermediate_size,
        up.len() == meta.intermediate_size,
    ensures
        part_rows(layer.gate, gate + up) == gate,
        part_rows(layer.up, gate + up) == up,
{
    let fused = gate + up;
    assert(fused.subrange(0, gate.len() as int) =~= gate);
    assert(fused.subrange(gate.len() as int, fused.len() as int) =~= up);
}

/// Every tensor that a planned model reads outside its layers is one that the
/// checkpoint has, with the shape that the configuration gives it.
pub proof fn law_planned_tables_are_listed(
    plan: LlamaPlan,
    meta: ModelMetadata,
    entries: Seq<TensorEntry>,
    prefix: Seq<char>,
)
    requires
        llama_planned(plan, meta, entries, prefix),
        meets_all(entries, llama_needs(meta, entries, prefix)),
    ensures
        lookup(entries, plan.embed@) == Some(seq![meta.vocab_size, meta.hidden_size]),
        plan.lm_head matches Some(head) ==> lookup(entries, head@) == Some(
            seq![meta.vocab_size, meta.hidden_size],
        ),
        lists(entries, plan.final_norm@),
{
    let needs = llama_needs(meta, entries, prefix);
    let head = head_needs(meta, entries, prefix);
    assert forall|i: int| 0 <= i < head.len() implies crate::catalog::meets(
        entries,
        #[trigger] head[i],
    ) by {
        assert(needs[i] == head[i]);
    }
    assert(crate::catalog::meets(entries, head[1]));
    if own_head(meta, entries) {
        assert(crate::catalog::meets(entries, head[3]));
        assert(crate::catalog::meets(entries, head[4]));
    } else {
        assert(crate::catalog::meets(entries, head[2]));
    }
}

} // verus!
