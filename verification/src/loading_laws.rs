//! What loading a checkpoint promises: which tensor serves which part of a model,
//! and which checkpoints load.

use vstd::prelude::*;

use crate::archspec::is_gemma;
use crate::catalog::{lookup, meets, meets_all, settles, Need, TensorEntry};
use crate::error::Result;
use crate::gemma::{
    gemma_back, gemma_front, gemma_head_needs, gemma_layer, gemma_layer_needs, gemma_layers_needs,
    gemma_needs, gemma_planned, gemma_shapes, GemmaPlan,
};
use crate::llama::{
    attention_needs, attention_shapes, bias_needs, detected_prefix, head_needs, layer_name,
    layer_needs, layers_needs, llama_needs, llama_planned, mlp_needs, need, norms_heads,
    qk_norm_needs, sandwich_needs, tail_needs, LlamaPlan, Part,
};
use crate::llama_laws::{lemma_layer_meets, lemma_meets_both, llama_outcome};
use crate::metadata::{ModelMetadata, VisionConfig};
use crate::reads::{read_needs, under};
use crate::smolvlm::{
    connector_cols, connector_needs, siglip_embeddings, siglip_layer, siglip_layers_needs,
    siglip_needs, siglip_planned, siglip_set, smolvlm_needs, SiglipPlan, SmolVlmPlan,
};
use crate::text::decimal;
use crate::whisper::{
    decoder_layer, decoder_needs, decoder_set, encoder_layer, encoder_needs, encoder_set,
    norm_pair, whisper_needs, whisper_planned, whisper_stem, whisper_tail, WhisperPlan,
};

verus! {

/// The checkpoint has this tensor, with this many dimensions.
pub open spec fn has(entries: Seq<TensorEntry>, name: Seq<char>, rank: int) -> bool {
    lookup(entries, name) matches Some(shape) && shape.len() == rank
}

/// The checkpoint has this tensor with this many dimensions, or does not have it.
pub open spec fn may_have(entries: Seq<TensorEntry>, name: Seq<char>, rank: int) -> bool {
    lookup(entries, name) matches Some(shape) ==> shape.len() == rank
}

/// The checkpoint has this tensor, a table of `rows` by `cols`.
pub open spec fn has_table(
    entries: Seq<TensorEntry>,
    name: Seq<char>,
    rows: int,
    cols: int,
) -> bool {
    lookup(entries, name) matches Some(shape) && shape.len() == 2 && shape[0] == rows && shape[1]
        == cols
}

/// `part` is `count` rows of `tensor`, from row `start` on.
pub open spec fn takes_run(part: Part, tensor: Seq<char>, start: int, count: int) -> bool {
    part.tensor@ == tensor && match part.rows {
        Some((first, rows)) => first == start && rows == count,
        None => false,
    }
}

/// The norms and the plain projections of a layer are read by their names: the
/// norm before attention is `input_layernorm`; the norm before the feed-forward
/// block is `pre_feedforward_layernorm` in Gemma, which norms the output of both
/// blocks too, and `post_attention_layernorm` elsewhere.
pub proof fn law_layer_norms_by_name(
    plan: LlamaPlan,
    meta: ModelMetadata,
    entries: Seq<TensorEntry>,
    prefix: Seq<char>,
    i: int,
)
    requires
        llama_planned(plan, meta, entries, prefix),
        0 <= i < meta.num_hidden_layers,
    ensures
        plan.layers@.len() == meta.num_hidden_layers,
        ({
            let front = if prefix.len() == 0 {
                Seq::<char>::empty()
            } else {
                prefix + "."@
            };
            let p = front + "layers."@ + decimal(i);
            let gemma = meta.architecture@ == "gemma3"@ || meta.architecture@ == "gemma3_text"@;
            let layer = plan.layers@[i];
            &&& layer.input_norm@ == p + ".input_layernorm.weight"@
            &&& gemma ==> layer.pre_mlp_norm@ == p + ".pre_feedforward_layernorm.weight"@
            &&& !gemma ==> layer.pre_mlp_norm@ == p + ".post_attention_layernorm.weight"@
            &&& layer.attn_out_norm is Some <==> gemma && lookup(
                entries,
                p + ".post_attention_layernorm.weight"@,
            ) is Some
            &&& layer.attn_out_norm matches Some(name) ==> name@ == p
                + ".post_attention_layernorm.weight"@
            &&& layer.mlp_out_norm is Some <==> gemma && lookup(
                entries,
                p + ".post_feedforward_layernorm.weight"@,
            ) is Some
            &&& layer.mlp_out_norm matches Some(name) ==> name@ == p
                + ".post_feedforward_layernorm.weight"@
            &&& layer.q_norm is Some <==> (gemma || meta.architecture@ == "qwen3"@) && lookup(
                entries,
                p + ".self_attn.q_norm.weight"@,
            ) is Some
            &&& layer.q_norm matches Some(name) ==> name@ == p + ".self_attn.q_norm.weight"@
            &&& layer.k_norm is Some <==> (gemma || meta.architecture@ == "qwen3"@) && lookup(
                entries,
                p + ".self_attn.k_norm.weight"@,
            ) is Some
            &&& layer.k_norm matches Some(name) ==> name@ == p + ".self_attn.k_norm.weight"@
            &&& layer.o@ == p + ".self_attn.o_proj.weight"@
            &&& layer.down@ == p + ".mlp.down_proj.weight"@
        }),
{
    let front = if prefix.len() == 0 {
        Seq::<char>::empty()
    } else {
        prefix + "."@
    };
    if prefix.len() == 0 {
        assert(prefix =~= front);
    }
    assert(layer_name(prefix, i) == front + "layers."@ + decimal(i));
}

/// The projections of a layer are read by their names: the split ones where the
/// checkpoint has the first of them, and else runs of rows of the fused one,
/// queries before keys before values and gate before up.
pub proof fn law_layer_projections_by_name(
    plan: LlamaPlan,
    meta: ModelMetadata,
    entries: Seq<TensorEntry>,
    prefix: Seq<char>,
    i: int,
)
    requires
        meta.countable(),
        llama_planned(plan, meta, entries, prefix),
        0 <= i < meta.num_hidden_layers,
    ensures
        ({
            let front = if prefix.len() == 0 {
                Seq::<char>::empty()
            } else {
                prefix + "."@
            };
            let p = front + "layers."@ + decimal(i);
            let layer = plan.layers@[i];
            let q_rows = meta.num_attention_heads * meta.head_dim;
            let kv_rows = meta.num_key_value_heads * meta.head_dim;
            let fused = p + ".self_attn.qkv_proj.weight"@;
            let wide = p + ".mlp.gate_up_proj.weight"@;
            &&& lookup(entries, p + ".self_attn.q_proj.weight"@) is Some ==> {
                &&& layer.q.tensor@ == p + ".self_attn.q_proj.weight"@ && layer.q.rows is None
                &&& layer.k.tensor@ == p + ".self_attn.k_proj.weight"@ && layer.k.rows is None
                &&& layer.v.tensor@ == p + ".self_attn.v_proj.weight"@ && layer.v.rows is None
            }
            &&& lookup(entries, p + ".self_attn.q_proj.weight"@) is None ==> {
                &&& takes_run(layer.q, fused, 0, q_rows)
                &&& takes_run(layer.k, fused, q_rows, kv_rows)
                &&& takes_run(layer.v, fused, q_rows + kv_rows, kv_rows)
            }
            &&& lookup(entries, p + ".mlp.gate_proj.weight"@) is Some ==> {
                &&& layer.gate.tensor@ == p + ".mlp.gate_proj.weight"@ && layer.gate.rows is None
                &&& layer.up.tensor@ == p + ".mlp.up_proj.weight"@ && layer.up.rows is None
            }
            &&& lookup(entries, p + ".mlp.gate_proj.weight"@) is None ==> {
                &&& layer.gate.tensor@ == wide && layer.up.tensor@ == wide
                &&& layer.gate.rows == Some((0usize, meta.intermediate_size))
                &&& layer.up.rows == Some((meta.intermediate_size, meta.intermediate_size))
            }
        }),
{
    let front = if prefix.len() == 0 {
        Seq::<char>::empty()
    } else {
        prefix + "."@
    };
    if prefix.len() == 0 {
        assert(prefix =~= front);
    }
    assert(layer_name(prefix, i) == front + "layers."@ + decimal(i));
    lemma_products_nonnegative(meta);
}

/// Rows are not negative.
proof fn lemma_products_nonnegative(meta: ModelMetadata)
    ensures
        0 <= meta.num_attention_heads * meta.head_dim,
        0 <= meta.num_key_value_heads * meta.head_dim,
        meta.q_rows() == meta.num_attention_heads * meta.head_dim,
        meta.kv_rows() == meta.num_key_value_heads * meta.head_dim,
{
    assert(0 <= meta.num_attention_heads * meta.head_dim) by (nonlinear_arith);
    assert(0 <= meta.num_key_value_heads * meta.head_dim) by (nonlinear_arith);
}

/// The biases of a layer are read by their names, where the checkpoint has them:
/// a fused one stands for those of queries, keys and values.
pub proof fn law_layer_biases_by_name(
    plan: LlamaPlan,
    meta: ModelMetadata,
    entries: Seq<TensorEntry>,
    prefix: Seq<char>,
    i: int,
)
    requires
        meta.countable(),
        llama_planned(plan, meta, entries, prefix),
        0 <= i < meta.num_hidden_layers,
    ensures
        ({
            let front = if prefix.len() == 0 {
                Seq::<char>::empty()
            } else {
                prefix + "."@
            };
            let p = front + "layers."@ + decimal(i);
            let layer = plan.layers@[i];
            let q_rows = meta.num_attention_heads * meta.head_dim;
            let kv_rows = meta.num_key_value_heads * meta.head_dim;
            let bias = p + ".self_attn.qkv_proj.bias"@;
            let fused = lookup(entries, p + ".self_attn.q_proj.weight"@) is None && lookup(
                entries,
                bias,
            ) is Some;
            &&& layer.o_bias is Some <==> lookup(entries, p + ".self_attn.o_proj.bias"@) is Some
            &&& layer.o_bias matches Some(name) ==> name@ == p + ".self_attn.o_proj.bias"@
            &&& fused ==> {
                &&& layer.q_bias matches Some(part) && takes_run(part, bias, 0, q_rows)
                &&& layer.k_bias matches Some(part) && takes_run(part, bias, q_rows, kv_rows)
                &&& layer.v_bias matches Some(part) && takes_run(
                    part,
                    bias,
                    q_rows + kv_rows,
                    kv_rows,
                )
            }
            &&& !fused ==> {
                &&& layer.q_bias is Some <==> lookup(entries, p + ".self_attn.q_proj.bias"@) is Some
                &&& layer.k_bias is Some <==> lookup(entries, p + ".self_attn.k_proj.bias"@) is Some
                &&& layer.v_bias is Some <==> lookup(entries, p + ".self_attn.v_proj.bias"@) is Some
                &&& layer.q_bias matches Some(part) ==> part.tensor@ == p
                    + ".self_attn.q_proj.bias"@ && part.rows is None
                &&& layer.k_bias matches Some(part) ==> part.tensor@ == p
                    + ".self_attn.k_proj.bias"@ && part.rows is None
                &&& layer.v_bias matches Some(part) ==> part.tensor@ == p
                    + ".self_attn.v_proj.bias"@ && part.rows is None
            }
        }),
{
    let front = if prefix.len() == 0 {
        Seq::<char>::empty()
    } else {
        prefix + "."@
    };
    if prefix.len() == 0 {
        assert(prefix =~= front);
    }
    assert(layer_name(prefix, i) == front + "layers."@ + decimal(i));
    lemma_products_nonnegative(meta);
}

/// The tensors outside the layers are read by their names. A head of its own is
/// taken where the checkpoint has one and the configuration does not tie it to the
/// embedding table.
pub proof fn law_tables_by_name(
    plan: LlamaPlan,
    meta: ModelMetadata,
    entries: Seq<TensorEntry>,
    prefix: Seq<char>,
)
    requires
        llama_planned(plan, meta, entries, prefix),
    ensures
        prefix.len() == 0 ==> plan.embed@ == "embed_tokens.weight"@ && plan.final_norm@
            == "norm.weight"@,
        prefix.len() > 0 ==> plan.embed@ == prefix + "."@ + "embed_tokens.weight"@
            && plan.final_norm@ == prefix + "."@ + "norm.weight"@,
        plan.lm_head is Some <==> !meta.tie_word_embeddings && lookup(entries, "lm_head.weight"@)
            is Some,
        plan.lm_head matches Some(name) ==> name@ == "lm_head.weight"@,
{
    if prefix.len() == 0 {
        assert(prefix + "embed_tokens.weight"@ =~= "embed_tokens.weight"@);
        assert(prefix + "norm.weight"@ =~= "norm.weight"@);
    }
}

/// The names of a checkpoint stand under `model` where its embedding table does,
/// and else under nothing.
pub proof fn law_prefix_by_name(entries: Seq<TensorEntry>)
    ensures
        lookup(entries, "model.embed_tokens.weight"@) is Some || lookup(
            entries,
            "model.embed_tokens"@,
        ) is Some ==> detected_prefix(entries) == "model"@,
        lookup(entries, "model.embed_tokens.weight"@) is None && lookup(
            entries,
            "model.embed_tokens"@,
        ) is None ==> detected_prefix(entries).len() == 0,
{
    reveal_strlit("");
}

/// A layer whose names begin with `p` is complete.
pub open spec fn layer_complete(
    meta: ModelMetadata,
    entries: Seq<TensorEntry>,
    p: Seq<char>,
) -> bool {
    let arch = meta.architecture@;
    let gemma = arch == "gemma3"@ || arch == "gemma3_text"@;
    let q_rows = meta.num_attention_heads * meta.head_dim;
    let kv_rows = meta.num_key_value_heads * meta.head_dim;
    let hidden = meta.hidden_size as int;
    let split = lookup(entries, p + ".self_attn.q_proj.weight"@) is Some;
    let bias = p + ".self_attn.qkv_proj.bias"@;
    &&& split ==> {
        &&& has_table(entries, p + ".self_attn.q_proj.weight"@, q_rows, hidden)
        &&& has_table(entries, p + ".self_attn.k_proj.weight"@, kv_rows, hidden)
        &&& has(entries, p + ".self_attn.v_proj.weight"@, 2)
    }
    &&& !split ==> {
        &&& has_table(entries, p + ".self_attn.qkv_proj.weight"@, q_rows + 2 * kv_rows, hidden)
        &&& lookup(entries, bias) matches Some(shape) ==> shape.len() == 1 && shape[0] == q_rows
            + 2 * kv_rows
    }
    &&& split || lookup(entries, bias) is None ==> {
        &&& may_have(entries, p + ".self_attn.q_proj.bias"@, 1)
        &&& may_have(entries, p + ".self_attn.k_proj.bias"@, 1)
        &&& may_have(entries, p + ".self_attn.v_proj.bias"@, 1)
    }
    &&& has(entries, p + ".self_attn.o_proj.weight"@, 2)
    &&& may_have(entries, p + ".self_attn.o_proj.bias"@, 1)
    &&& lookup(entries, p + ".mlp.gate_proj.weight"@) is Some ==> {
        &&& has(entries, p + ".mlp.gate_proj.weight"@, 2)
        &&& has(entries, p + ".mlp.up_proj.weight"@, 2)
    }
    &&& lookup(entries, p + ".mlp.gate_proj.weight"@) is None ==> {
        &&& has(entries, p + ".mlp.gate_up_proj.weight"@, 2)
        &&& lookup(entries, p + ".mlp.gate_up_proj.weight"@)->0[0] == 2 * meta.intermediate_size
    }
    &&& has(entries, p + ".mlp.down_proj.weight"@, 2)
    &&& has(entries, p + ".input_layernorm.weight"@, 1)
    &&& !gemma ==> has(entries, p + ".post_attention_layernorm.weight"@, 1)
    &&& gemma ==> {
        &&& has(entries, p + ".pre_feedforward_layernorm.weight"@, 1)
        &&& may_have(entries, p + ".post_attention_layernorm.weight"@, 1)
        &&& may_have(entries, p + ".post_feedforward_layernorm.weight"@, 1)
    }
    &&& gemma || arch == "qwen3"@ ==> {
        &&& may_have(entries, p + ".self_attn.q_norm.weight"@, 1)
        &&& may_have(entries, p + ".self_attn.k_norm.weight"@, 1)
    }
}

/// Up to five needs are met when each of them is.
proof fn lemma_meets_each(entries: Seq<TensorEntry>, needs: Seq<Need>)
    requires
        needs.len() <= 5,
    ensures
        meets_all(entries, needs) == {
            &&& needs.len() > 0 ==> meets(entries, needs[0])
            &&& needs.len() > 1 ==> meets(entries, needs[1])
            &&& needs.len() > 2 ==> meets(entries, needs[2])
            &&& needs.len() > 3 ==> meets(entries, needs[3])
            &&& needs.len() > 4 ==> meets(entries, needs[4])
        },
{
}

/// The needs of the attention block of a layer.
proof fn lemma_attention_complete(meta: ModelMetadata, entries: Seq<TensorEntry>, p: Seq<char>)
    requires
        meta.countable(),
    ensures
        ({
            let q_rows = meta.num_attention_heads * meta.head_dim;
            let kv_rows = meta.num_key_value_heads * meta.head_dim;
            let hidden = meta.hidden_size as int;
            let split = lookup(entries, p + ".self_attn.q_proj.weight"@) is Some;
            let bias = p + ".self_attn.qkv_proj.bias"@;
            (meets_all(entries, attention_needs(meta, entries, p)) && meets_all(
                entries,
                attention_shapes(meta, entries, p),
            ) && meets_all(entries, bias_needs(entries, p))) == {
                &&& split ==> {
                    &&& has_table(entries, p + ".self_attn.q_proj.weight"@, q_rows, hidden)
                    &&& has_table(entries, p + ".self_attn.k_proj.weight"@, kv_rows, hidden)
                    &&& has(entries, p + ".self_attn.v_proj.weight"@, 2)
                }
                &&& !split ==> {
                    &&& has_table(
                        entries,
                        p + ".self_attn.qkv_proj.weight"@,
                        q_rows + 2 * kv_rows,
                        hidden,
                    )
                    &&& lookup(entries, bias) matches Some(shape) ==> shape.len() == 1 && shape[0]
                        == q_rows + 2 * kv_rows
                }
                &&& split || lookup(entries, bias) is None ==> {
                    &&& may_have(entries, p + ".self_attn.q_proj.bias"@, 1)
                    &&& may_have(entries, p + ".self_attn.k_proj.bias"@, 1)
                    &&& may_have(entries, p + ".self_attn.v_proj.bias"@, 1)
                }
                &&& may_have(entries, p + ".self_attn.o_proj.bias"@, 1)
            }
        }),
{
    lemma_products_nonnegative(meta);
    lemma_meets_each(entries, attention_needs(meta, entries, p));
    lemma_meets_each(entries, attention_shapes(meta, entries, p));
    lemma_meets_each(entries, bias_needs(entries, p));
    let q_rows = meta.q_rows() as usize;
    let kv_rows = meta.kv_rows() as usize;
    lemma_table(entries, p + ".self_attn.q_proj.weight"@, q_rows, meta.hidden_size);
    lemma_table(entries, p + ".self_attn.k_proj.weight"@, kv_rows, meta.hidden_size);
}

/// A shape of two numbers.
proof fn lemma_table(entries: Seq<TensorEntry>, name: Seq<char>, rows: usize, cols: usize)
    ensures
        lookup(entries, name) == Some(seq![rows, cols]) <==> has_table(
            entries,
            name,
            rows as int,
            cols as int,
        ),
{
    if has_table(entries, name, rows as int, cols as int) {
        assert(lookup(entries, name)->0 =~= seq![rows, cols]);
    }
}

/// A layer meets its needs when it is complete.
proof fn lemma_layer_complete(meta: ModelMetadata, entries: Seq<TensorEntry>, p: Seq<char>)
    requires
        meta.countable(),
    ensures
        meets_all(
            entries,
            layer_needs(
                meta,
                norms_heads(meta.architecture@),
                is_gemma(meta.architecture@),
                entries,
                p,
            ),
        ) == layer_complete(meta, entries, p),
{
    let qk_norm = norms_heads(meta.architecture@);
    let sandwich = is_gemma(meta.architecture@);
    lemma_layer_meets(meta, qk_norm, sandwich, entries, p);
    lemma_attention_complete(meta, entries, p);
    lemma_meets_each(entries, seq![need(p + ".self_attn.o_proj.weight"@, 2)]);
    lemma_meets_each(entries, mlp_needs(meta, entries, p));
    lemma_meets_each(entries, qk_norm_needs(qk_norm, p));
    lemma_meets_each(entries, tail_needs(sandwich, p));
    lemma_meets_each(entries, sandwich_needs(sandwich, p));
}

/// The first `count` layers meet their needs when each of them is complete.
proof fn lemma_layers_complete(
    meta: ModelMetadata,
    entries: Seq<TensorEntry>,
    prefix: Seq<char>,
    count: int,
)
    requires
        meta.countable(),
        0 <= count,
    ensures
        meets_all(
            entries,
            layers_needs(
                meta,
                norms_heads(meta.architecture@),
                is_gemma(meta.architecture@),
                entries,
                prefix,
                count,
            ),
        ) == (forall|i: int|
            0 <= i < count ==> layer_complete(meta, entries, #[trigger] layer_name(prefix, i))),
    decreases count,
{
    let qk_norm = norms_heads(meta.architecture@);
    let sandwich = is_gemma(meta.architecture@);
    if count > 0 {
        let p = layer_name(prefix, count - 1);
        lemma_layers_complete(meta, entries, prefix, count - 1);
        lemma_layer_complete(meta, entries, p);
        lemma_meets_both(
            entries,
            layers_needs(meta, qk_norm, sandwich, entries, prefix, count - 1),
            layer_needs(meta, qk_norm, sandwich, entries, p),
        );
    }
}

/// A checkpoint loads exactly when it is complete: it has the embedding table, the
/// last norm and all tensors of each layer, in the shapes that the configuration
/// gives them; and an output head that is not tied, if it has one, has the shape of
/// the embedding table.
pub proof fn law_complete_checkpoints_load(
    r: Result<LlamaPlan>,
    meta: ModelMetadata,
    entries: Seq<TensorEntry>,
    prefix: Seq<char>,
)
    requires
        meta.countable(),
        llama_outcome(r, meta, entries, prefix),
    ensures
        ({
            let front = if prefix.len() == 0 {
                Seq::<char>::empty()
            } else {
                prefix + "."@
            };
            let (vocab, hidden) = (meta.vocab_size as int, meta.hidden_size as int);
            r is Ok <==> {
                &&& has_table(entries, front + "embed_tokens.weight"@, vocab, hidden)
                &&& has(entries, front + "norm.weight"@, 1)
                &&& !meta.tie_word_embeddings && lookup(entries, "lm_head.weight"@) is Some
                    ==> has_table(entries, "lm_head.weight"@, vocab, hidden)
                &&& forall|i: int|
                    0 <= i < meta.num_hidden_layers ==> layer_complete(
                        meta,
                        entries,
                        front + "layers."@ + #[trigger] decimal(i),
                    )
            }
        }),
{
    let front = if prefix.len() == 0 {
        Seq::<char>::empty()
    } else {
        prefix + "."@
    };
    if prefix.len() == 0 {
        assert(prefix =~= front);
    }
    let head = head_needs(meta, entries, prefix);
    let count = meta.num_hidden_layers as int;
    lemma_meets_both(
        entries,
        head,
        layers_needs(
            meta,
            norms_heads(meta.architecture@),
            is_gemma(meta.architecture@),
            entries,
            prefix,
            count,
        ),
    );
    lemma_meets_each(entries, head);
    lemma_layers_complete(meta, entries, prefix, count);
    lemma_table(entries, front + "embed_tokens.weight"@, meta.vocab_size, meta.hidden_size);
    lemma_table(entries, "lm_head.weight"@, meta.vocab_size, meta.hidden_size);
    assert forall|i: int| #[trigger] layer_name(prefix, i) == front + "layers."@ + decimal(i) by {}
    assert((forall|i: int|
        0 <= i < count ==> layer_complete(meta, entries, #[trigger] layer_name(prefix, i))) == (
    forall|i: int|
        0 <= i < count ==> layer_complete(
            meta,
            entries,
            front + "layers."@ + #[trigger] decimal(i),
        ))) by {
        if forall|i: int|
            0 <= i < count ==> layer_complete(meta, entries, #[trigger] layer_name(prefix, i)) {
            assert forall|i: int| 0 <= i < count implies layer_complete(
                meta,
                entries,
                front + "layers."@ + #[trigger] decimal(i),
            ) by {
                assert(layer_complete(meta, entries, layer_name(prefix, i)));
            }
        }
    }
    assert(r is Ok <==> meets_all(entries, llama_needs(meta, entries, prefix)));
    assert(settles(entries, llama_needs(meta, entries, prefix), r));
}

/// The checkpoint has all of these tensors, each with its number of dimensions.
pub open spec fn has_all(entries: Seq<TensorEntry>, reads: Seq<(Seq<char>, int)>) -> bool {
    forall|k: int| 0 <= k < reads.len() ==> has(entries, (#[trigger] reads[k]).0, reads[k].1)
}

/// Reads are met when every tensor is there.
proof fn lemma_reads_present(entries: Seq<TensorEntry>, reads: Seq<(Seq<char>, int)>)
    ensures
        meets_all(entries, read_needs(reads)) == has_all(entries, reads),
{
    let needs = read_needs(reads);
    assert forall|k: int| 0 <= k < reads.len() implies meets(entries, #[trigger] needs[k]) == has(
        entries,
        reads[k].0,
        reads[k].1,
    ) by {}
    if meets_all(entries, needs) {
        assert forall|k: int| 0 <= k < reads.len() implies has(
            entries,
            (#[trigger] reads[k]).0,
            reads[k].1,
        ) by {
            assert(meets(entries, needs[k]));
        }
    }
}

/// A Gemma layer reads these tensors, in this order.
pub proof fn law_gemma_layer_by_name(
    plan: GemmaPlan,
    meta: ModelMetadata,
    entries: Seq<TensorEntry>,
    i: int,
)
    requires
        gemma_planned(plan, meta, entries),
        0 <= i < meta.num_hidden_layers,
    ensures
        plan.layers@.len() == meta.num_hidden_layers,
        plan.embed@ == "model.embed_tokens.weight"@,
        plan.final_norm@ == "model.norm.weight"@,
        plan.lm_head is Some <==> !meta.tie_word_embeddings && lookup(entries, "lm_head.weight"@)
            is Some,
        plan.lm_head matches Some(name) ==> name@ == "lm_head.weight"@,
        ({
            let p = "model.layers."@ + decimal(i);
            plan.layers@[i]@ == seq![
                (p + ".self_attn.q_proj.weight"@, 2int),
                (p + ".self_attn.k_proj.weight"@, 2int),
                (p + ".self_attn.v_proj.weight"@, 2int),
                (p + ".self_attn.o_proj.weight"@, 2int),
                (p + ".self_attn.q_norm.weight"@, 1int),
                (p + ".self_attn.k_norm.weight"@, 1int),
                (p + ".mlp.gate_proj.weight"@, 2int),
                (p + ".mlp.up_proj.weight"@, 2int),
                (p + ".mlp.down_proj.weight"@, 2int),
                (p + ".input_layernorm.weight"@, 1int),
                (p + ".post_attention_layernorm.weight"@, 1int),
                (p + ".pre_feedforward_layernorm.weight"@, 1int),
                (p + ".post_feedforward_layernorm.weight"@, 1int),
            ]
        }),
{
    let p = "model.layers."@ + decimal(i);
    assert(plan.layers@[i]@ == under(gemma_layer(i), gemma_front() + gemma_back()));
    assert(plan.layers@[i]@ =~= seq![
        (p + ".self_attn.q_proj.weight"@, 2int),
        (p + ".self_attn.k_proj.weight"@, 2int),
        (p + ".self_attn.v_proj.weight"@, 2int),
        (p + ".self_attn.o_proj.weight"@, 2int),
        (p + ".self_attn.q_norm.weight"@, 1int),
        (p + ".self_attn.k_norm.weight"@, 1int),
        (p + ".mlp.gate_proj.weight"@, 2int),
        (p + ".mlp.up_proj.weight"@, 2int),
        (p + ".mlp.down_proj.weight"@, 2int),
        (p + ".input_layernorm.weight"@, 1int),
        (p + ".post_attention_layernorm.weight"@, 1int),
        (p + ".pre_feedforward_layernorm.weight"@, 1int),
        (p + ".post_feedforward_layernorm.weight"@, 1int),
    ]);
}

/// A Gemma layer meets its needs when its tensors are there and the query and key
/// projections have the shapes that the configuration gives them.
proof fn lemma_gemma_layer_complete(meta: ModelMetadata, entries: Seq<TensorEntry>, p: Seq<char>)
    requires
        meta.q_rows() <= usize::MAX,
        meta.kv_rows() <= usize::MAX,
    ensures
        meets_all(entries, gemma_layer_needs(meta, p)) == {
            &&& has_all(entries, under(p, gemma_front() + gemma_back()))
            &&& has_table(
                entries,
                p + ".self_attn.q_proj.weight"@,
                meta.num_attention_heads * meta.head_dim,
                meta.hidden_size as int,
            )
            &&& has_table(
                entries,
                p + ".self_attn.k_proj.weight"@,
                meta.num_key_value_heads * meta.head_dim,
                meta.hidden_size as int,
            )
        },
{
    lemma_products_nonnegative(meta);
    let front = under(p, gemma_front());
    let back = under(p, gemma_back());
    let shapes = gemma_shapes(meta, p);
    lemma_meets_both(entries, read_needs(front), shapes);
    lemma_meets_both(entries, read_needs(front) + shapes, read_needs(back));
    assert(under(p, gemma_front() + gemma_back()) =~= front + back);
    assert(read_needs(front + back) =~= read_needs(front) + read_needs(back));
    lemma_meets_both(entries, read_needs(front), read_needs(back));
    lemma_reads_present(entries, front + back);
    lemma_meets_each(entries, shapes);
    lemma_table(
        entries,
        p + ".self_attn.q_proj.weight"@,
        meta.q_rows() as usize,
        meta.hidden_size,
    );
    lemma_table(
        entries,
        p + ".self_attn.k_proj.weight"@,
        meta.kv_rows() as usize,
        meta.hidden_size,
    );
}

/// The first `count` layers of a Gemma model meet their needs when each does.
proof fn lemma_gemma_layers_complete(meta: ModelMetadata, entries: Seq<TensorEntry>, count: int)
    requires
        0 <= count,
    ensures
        meets_all(entries, gemma_layers_needs(meta, count)) == (forall|i: int|
            0 <= i < count ==> meets_all(
                entries,
                gemma_layer_needs(meta, #[trigger] gemma_layer(i)),
            )),
    decreases count,
{
    if count > 0 {
        lemma_gemma_layers_complete(meta, entries, count - 1);
        lemma_meets_both(
            entries,
            gemma_layers_needs(meta, count - 1),
            gemma_layer_needs(meta, gemma_layer(count - 1)),
        );
    }
}

/// A Gemma checkpoint loads exactly when the embedding table and the last norm are
/// there, every layer has all its tensors, with query and key projections in the
/// shapes that the configuration gives them, and an output head that is not tied,
/// if it has one, has the shape of the embedding table.
pub proof fn law_complete_gemma_checkpoints_load(
    r: Result<GemmaPlan>,
    meta: ModelMetadata,
    entries: Seq<TensorEntry>,
)
    requires
        meta.q_rows() <= usize::MAX,
        meta.kv_rows() <= usize::MAX,
        settles(entries, gemma_needs(meta, entries), r),
    ensures
        ({
            let (vocab, hidden) = (meta.vocab_size as int, meta.hidden_size as int);
            r is Ok <==> {
                &&& has_table(entries, "model.embed_tokens.weight"@, vocab, hidden)
                &&& has(entries, "model.norm.weight"@, 1)
                &&& !meta.tie_word_embeddings && lookup(entries, "lm_head.weight"@) is Some
                    ==> has_table(entries, "lm_head.weight"@, vocab, hidden)
                &&& forall|i: int|
                    0 <= i < meta.num_hidden_layers ==> {
                        let p = "model.layers."@ + #[trigger] decimal(i);
                        &&& has_all(entries, under(p, gemma_front() + gemma_back()))
                        &&& has_table(
                            entries,
                            p + ".self_attn.q_proj.weight"@,
                            meta.num_attention_heads * meta.head_dim,
                            hidden,
                        )
                        &&& has_table(
                            entries,
                            p + ".self_attn.k_proj.weight"@,
                            meta.num_key_value_heads * meta.head_dim,
                            hidden,
                        )
                    }
            }
        }),
{
    let head = gemma_head_needs(meta, entries);
    let count = meta.num_hidden_layers as int;
    lemma_meets_both(entries, head, gemma_layers_needs(meta, count));
    lemma_meets_each(entries, head);
    lemma_gemma_layers_complete(meta, entries, count);
    lemma_table(entries, "model.embed_tokens.weight"@, meta.vocab_size, meta.hidden_size);
    lemma_table(entries, "lm_head.weight"@, meta.vocab_size, meta.hidden_size);
    assert forall|i: int| #[trigger] decimal(i) == decimal(i) implies meets_all(
        entries,
        gemma_layer_needs(meta, gemma_layer(i)),
    ) == {
        let p = "model.layers."@ + decimal(i);
        &&& has_all(entries, under(p, gemma_front() + gemma_back()))
        &&& has_table(
            entries,
            p + ".self_attn.q_proj.weight"@,
            meta.num_attention_heads * meta.head_dim,
            meta.hidden_size as int,
        )
        &&& has_table(
            entries,
            p + ".self_attn.k_proj.weight"@,
            meta.num_key_value_heads * meta.head_dim,
            meta.hidden_size as int,
        )
    } by {
        lemma_gemma_layer_complete(meta, entries, gemma_layer(i));
    }
    if forall|i: int|
        0 <= i < count ==> meets_all(entries, gemma_layer_needs(meta, #[trigger] gemma_layer(i))) {
        assert forall|i: int| 0 <= i < count implies meets_all(
            entries,
            gemma_layer_needs(meta, "model.layers."@ + #[trigger] decimal(i)),
        ) by {
            assert(meets_all(entries, gemma_layer_needs(meta, gemma_layer(i))));
        }
    }
}

/// A speech model reads these tensors, in this order.
pub proof fn law_speech_reads_by_name(
    plan: WhisperPlan,
    layers: int,
    entries: Seq<TensorEntry>,
    i: int,
)
    requires
        whisper_planned(plan, layers, entries),
        0 <= i < layers,
    ensures
        plan.encoder@.len() == layers,
        plan.decoder@.len() == layers,
        plan.stem@ == seq![
            ("model.encoder.conv1.weight"@, 3int),
            ("model.encoder.conv2.weight"@, 3int),
            ("model.encoder.embed_positions.weight"@, 2int),
        ],
        plan.tail@ == seq![
            ("model.encoder.conv1.bias"@, 1int),
            ("model.encoder.conv2.bias"@, 1int),
            ("model.encoder.layer_norm.weight"@, 1int),
            ("model.encoder.layer_norm.bias"@, 1int),
            ("model.decoder.embed_tokens.weight"@, 2int),
            ("model.decoder.embed_positions.weight"@, 2int),
            ("model.decoder.layer_norm.weight"@, 1int),
            ("model.decoder.layer_norm.bias"@, 1int),
        ],
        ({
            let p = "model.encoder.layers."@ + decimal(i);
            plan.encoder@[i]@ == seq![
                (p + ".self_attn_layer_norm"@ + ".weight"@, 1int),
                (p + ".self_attn_layer_norm"@ + ".bias"@, 1int),
                (p + ".self_attn"@ + ".q_proj.weight"@, 2int),
                (p + ".self_attn"@ + ".q_proj.bias"@, 1int),
                (p + ".self_attn"@ + ".k_proj.weight"@, 2int),
                (p + ".self_attn"@ + ".v_proj.weight"@, 2int),
                (p + ".self_attn"@ + ".v_proj.bias"@, 1int),
                (p + ".self_attn"@ + ".out_proj.weight"@, 2int),
                (p + ".self_attn"@ + ".out_proj.bias"@, 1int),
                (p + ".final_layer_norm"@ + ".weight"@, 1int),
                (p + ".final_layer_norm"@ + ".bias"@, 1int),
                (p + ".fc1.weight"@, 2int),
                (p + ".fc1.bias"@, 1int),
                (p + ".fc2.weight"@, 2int),
                (p + ".fc2.bias"@, 1int),
            ]
        }),
        ({
            let p = "model.decoder.layers."@ + decimal(i);
            plan.decoder@[i]@ == seq![
                (p + ".self_attn_layer_norm"@ + ".weight"@, 1int),
                (p + ".self_attn_layer_norm"@ + ".bias"@, 1int),
                (p + ".self_attn"@ + ".q_proj.weight"@, 2int),
                (p + ".self_attn"@ + ".q_proj.bias"@, 1int),
                (p + ".self_attn"@ + ".k_proj.weight"@, 2int),
                (p + ".self_attn"@ + ".v_proj.weight"@, 2int),
                (p + ".self_attn"@ + ".v_proj.bias"@, 1int),
                (p + ".self_attn"@ + ".out_proj.weight"@, 2int),
                (p + ".self_attn"@ + ".out_proj.bias"@, 1int),
                (p + ".encoder_attn_layer_norm"@ + ".weight"@, 1int),
                (p + ".encoder_attn_layer_norm"@ + ".bias"@, 1int),
                (p + ".encoder_attn"@ + ".q_proj.weight"@, 2int),
                (p + ".encoder_attn"@ + ".q_proj.bias"@, 1int),
                (p + ".encoder_attn"@ + ".k_proj.weight"@, 2int),
                (p + ".encoder_attn"@ + ".v_proj.weight"@, 2int),
                (p + ".encoder_attn"@ + ".v_proj.bias"@, 1int),
                (p + ".encoder_attn"@ + ".out_proj.weight"@, 2int),
                (p + ".encoder_attn"@ + ".out_proj.bias"@, 1int),
                (p + ".final_layer_norm"@ + ".weight"@, 1int),
                (p + ".final_layer_norm"@ + ".bias"@, 1int),
                (p + ".fc1.weight"@, 2int),
                (p + ".fc1.bias"@, 1int),
                (p + ".fc2.weight"@, 2int),
                (p + ".fc2.bias"@, 1int),
            ]
        }),
{
    let p = encoder_layer(i);
    assert(encoder_set(p) =~= seq![
        (p + ".self_attn_layer_norm"@ + ".weight"@, 1int),
        (p + ".self_attn_layer_norm"@ + ".bias"@, 1int),
        (p + ".self_attn"@ + ".q_proj.weight"@, 2int),
        (p + ".self_attn"@ + ".q_proj.bias"@, 1int),
        (p + ".self_attn"@ + ".k_proj.weight"@, 2int),
        (p + ".self_attn"@ + ".v_proj.weight"@, 2int),
        (p + ".self_attn"@ + ".v_proj.bias"@, 1int),
        (p + ".self_attn"@ + ".out_proj.weight"@, 2int),
        (p + ".self_attn"@ + ".out_proj.bias"@, 1int),
        (p + ".final_layer_norm"@ + ".weight"@, 1int),
        (p + ".final_layer_norm"@ + ".bias"@, 1int),
        (p + ".fc1.weight"@, 2int),
        (p + ".fc1.bias"@, 1int),
        (p + ".fc2.weight"@, 2int),
        (p + ".fc2.bias"@, 1int),
    ]);
    let p = decoder_layer(i);
    assert(decoder_set(p) =~= seq![
        (p + ".self_attn_layer_norm"@ + ".weight"@, 1int),
        (p + ".self_attn_layer_norm"@ + ".bias"@, 1int),
        (p + ".self_attn"@ + ".q_proj.weight"@, 2int),
        (p + ".self_attn"@ + ".q_proj.bias"@, 1int),
        (p + ".self_attn"@ + ".k_proj.weight"@, 2int),
        (p + ".self_attn"@ + ".v_proj.weight"@, 2int),
        (p + ".self_attn"@ + ".v_proj.bias"@, 1int),
        (p + ".self_attn"@ + ".out_proj.weight"@, 2int),
        (p + ".self_attn"@ + ".out_proj.bias"@, 1int),
        (p + ".encoder_attn_layer_norm"@ + ".weight"@, 1int),
        (p + ".encoder_attn_layer_norm"@ + ".bias"@, 1int),
        (p + ".encoder_attn"@ + ".q_proj.weight"@, 2int),
        (p + ".encoder_attn"@ + ".q_proj.bias"@, 1int),
        (p + ".encoder_attn"@ + ".k_proj.weight"@, 2int),
        (p + ".encoder_attn"@ + ".v_proj.weight"@, 2int),
        (p + ".encoder_attn"@ + ".v_proj.bias"@, 1int),
        (p + ".encoder_attn"@ + ".out_proj.weight"@, 2int),
        (p + ".encoder_attn"@ + ".out_proj.bias"@, 1int),
        (p + ".final_layer_norm"@ + ".weight"@, 1int),
        (p + ".final_layer_norm"@ + ".bias"@, 1int),
        (p + ".fc1.weight"@, 2int),
        (p + ".fc1.bias"@, 1int),
        (p + ".fc2.weight"@, 2int),
        (p + ".fc2.bias"@, 1int),
    ]);
    assert(plan.encoder@[i]@ == encoder_set(encoder_layer(i)));
    assert(plan.decoder@[i]@ == decoder_set(decoder_layer(i)));
}

/// The first `count` encoder layers meet their needs when each has its tensors.
proof fn lemma_encoder_present(entries: Seq<TensorEntry>, count: int)
    requires
        0 <= count,
    ensures
        meets_all(entries, encoder_needs(count)) == (forall|i: int|
            0 <= i < count ==> has_all(entries, encoder_set(#[trigger] encoder_layer(i)))),
    decreases count,
{
    if count > 0 {
        let last = encoder_set(encoder_layer(count - 1));
        lemma_encoder_present(entries, count - 1);
        lemma_meets_both(entries, encoder_needs(count - 1), read_needs(last));
        lemma_reads_present(entries, last);
    }
}

/// The first `count` decoder layers meet their needs when each has its tensors.
proof fn lemma_decoder_present(entries: Seq<TensorEntry>, count: int)
    requires
        0 <= count,
    ensures
        meets_all(entries, decoder_needs(count)) == (forall|i: int|
            0 <= i < count ==> has_all(entries, decoder_set(#[trigger] decoder_layer(i)))),
    decreases count,
{
    if count > 0 {
        let last = decoder_set(decoder_layer(count - 1));
        lemma_decoder_present(entries, count - 1);
        lemma_meets_both(entries, decoder_needs(count - 1), read_needs(last));
        lemma_reads_present(entries, last);
    }
}

/// A speech checkpoint loads exactly when all tensors that the model reads are
/// there.
pub proof fn law_complete_speech_checkpoints_load(
    r: Result<WhisperPlan>,
    layers: int,
    entries: Seq<TensorEntry>,
)
    requires
        0 <= layers,
        settles(entries, whisper_needs(layers), r),
    ensures
        r is Ok <==> {
            &&& has_all(entries, whisper_stem())
            &&& has_all(entries, whisper_tail())
            &&& forall|i: int|
                0 <= i < layers ==> has_all(entries, encoder_set(#[trigger] encoder_layer(i)))
            &&& forall|i: int|
                0 <= i < layers ==> has_all(entries, decoder_set(#[trigger] decoder_layer(i)))
        },
{
    let one = read_needs(whisper_stem());
    let two = one + encoder_needs(layers);
    let three = two + decoder_needs(layers);
    lemma_meets_both(entries, one, encoder_needs(layers));
    lemma_meets_both(entries, two, decoder_needs(layers));
    lemma_meets_both(entries, three, read_needs(whisper_tail()));
    lemma_reads_present(entries, whisper_stem());
    lemma_reads_present(entries, whisper_tail());
    lemma_encoder_present(entries, layers);
    lemma_decoder_present(entries, layers);
}

/// The limits of a speech model are those of its tensors: the mel bins are the
/// input channels of the first convolution, and the positions of encoder and
/// decoder are the rows of their tables.
pub proof fn law_speech_limits_by_shape(plan: WhisperPlan, layers: int, entries: Seq<TensorEntry>)
    requires
        whisper_planned(plan, layers, entries),
    ensures
        lookup(entries, "model.encoder.conv1.weight"@) matches Some(shape) && shape.len() == 3
            && plan.n_mels == shape[1],
        lookup(entries, "model.encoder.embed_positions.weight"@) matches Some(shape)
            && shape.len() == 2 && plan.n_audio_ctx == shape[0],
        lookup(entries, "model.decoder.embed_positions.weight"@) matches Some(shape)
            && shape.len() == 2 && plan.max_ctx == shape[0],
{
}

/// A vision tower reads these tensors, in this order.
pub proof fn law_tower_reads_by_name(plan: SiglipPlan, layers: int, i: int)
    requires
        siglip_planned(plan, layers),
        0 <= i < layers,
    ensures
        plan.layers@.len() == layers,
        plan.embeddings@ == seq![
            ("model.vision_model"@ + ".embeddings.patch_embedding.weight"@, 4int),
            ("model.vision_model"@ + ".embeddings.patch_embedding.bias"@, 1int),
            ("model.vision_model"@ + ".embeddings.position_embedding.weight"@, 2int),
        ],
        plan.post_norm@ == seq![
            ("model.vision_model.post_layernorm"@ + ".weight"@, 1int),
            ("model.vision_model.post_layernorm"@ + ".bias"@, 1int),
        ],
        ({
            let p = "model.vision_model.encoder.layers."@ + decimal(i);
            plan.layers@[i]@ == seq![
                (p + ".layer_norm1"@ + ".weight"@, 1int),
                (p + ".layer_norm1"@ + ".bias"@, 1int),
                (p + ".self_attn.q_proj"@ + ".weight"@, 2int),
                (p + ".self_attn.q_proj"@ + ".bias"@, 1int),
                (p + ".self_attn.k_proj"@ + ".weight"@, 2int),
                (p + ".self_attn.k_proj"@ + ".bias"@, 1int),
                (p + ".self_attn.v_proj"@ + ".weight"@, 2int),
                (p + ".self_attn.v_proj"@ + ".bias"@, 1int),
                (p + ".self_attn.out_proj"@ + ".weight"@, 2int),
                (p + ".self_attn.out_proj"@ + ".bias"@, 1int),
                (p + ".layer_norm2"@ + ".weight"@, 1int),
                (p + ".layer_norm2"@ + ".bias"@, 1int),
                (p + ".mlp.fc1"@ + ".weight"@, 2int),
                (p + ".mlp.fc1"@ + ".bias"@, 1int),
                (p + ".mlp.fc2"@ + ".weight"@, 2int),
                (p + ".mlp.fc2"@ + ".bias"@, 1int),
            ]
        }),
{
    let p = siglip_layer(i);
    assert(siglip_set(p) =~= seq![
        (p + ".layer_norm1"@ + ".weight"@, 1int),
        (p + ".layer_norm1"@ + ".bias"@, 1int),
        (p + ".self_attn.q_proj"@ + ".weight"@, 2int),
        (p + ".self_attn.q_proj"@ + ".bias"@, 1int),
        (p + ".self_attn.k_proj"@ + ".weight"@, 2int),
        (p + ".self_attn.k_proj"@ + ".bias"@, 1int),
        (p + ".self_attn.v_proj"@ + ".weight"@, 2int),
        (p + ".self_attn.v_proj"@ + ".bias"@, 1int),
        (p + ".self_attn.out_proj"@ + ".weight"@, 2int),
        (p + ".self_attn.out_proj"@ + ".bias"@, 1int),
        (p + ".layer_norm2"@ + ".weight"@, 1int),
        (p + ".layer_norm2"@ + ".bias"@, 1int),
        (p + ".mlp.fc1"@ + ".weight"@, 2int),
        (p + ".mlp.fc1"@ + ".bias"@, 1int),
        (p + ".mlp.fc2"@ + ".weight"@, 2int),
        (p + ".mlp.fc2"@ + ".bias"@, 1int),
    ]);
    assert(plan.layers@[i]@ == siglip_set(siglip_layer(i)));
}

/// The first `count` layers of a tower meet their needs when each has its tensors.
proof fn lemma_tower_present(entries: Seq<TensorEntry>, count: int)
    requires
        0 <= count,
    ensures
        meets_all(entries, siglip_layers_needs(count)) == (forall|i: int|
            0 <= i < count ==> has_all(entries, siglip_set(#[trigger] siglip_layer(i)))),
    decreases count,
{
    if count > 0 {
        let last = siglip_set(siglip_layer(count - 1));
        lemma_tower_present(entries, count - 1);
        lemma_meets_both(entries, siglip_layers_needs(count - 1), read_needs(last));
        lemma_reads_present(entries, last);
    }
}

/// A vision language checkpoint loads exactly when its tower has all its tensors,
/// the projection takes groups of patches of the width of the tower to the width of
/// the decoder, and the decoder loads by itself.
pub proof fn law_complete_vision_checkpoints_load(
    r: Result<SmolVlmPlan>,
    text: Result<LlamaPlan>,
    meta: ModelMetadata,
    vision: VisionConfig,
    entries: Seq<TensorEntry>,
)
    requires
        vision.hidden_size * vision.scale_factor * vision.scale_factor <= usize::MAX,
        settles(entries, smolvlm_needs(meta, vision, entries), r),
        llama_outcome(text, meta, entries, "model.text_model"@),
    ensures
        r is Ok <==> {
            &&& has_all(entries, siglip_embeddings())
            &&& has_all(entries, norm_pair("model.vision_model.post_layernorm"@))
            &&& forall|i: int|
                0 <= i < vision.num_hidden_layers ==> has_all(
                    entries,
                    siglip_set(#[trigger] siglip_layer(i)),
                )
            &&& has_table(
                entries,
                "model.connector.modality_projection.proj.weight"@,
                meta.hidden_size as int,
                vision.hidden_size * vision.scale_factor * vision.scale_factor,
            )
            &&& text is Ok
        },
{
    let layers = vision.num_hidden_layers as int;
    let one = read_needs(siglip_embeddings());
    let two = one + siglip_layers_needs(layers);
    let post = norm_pair("model.vision_model.post_layernorm"@);
    lemma_meets_both(entries, one, siglip_layers_needs(layers));
    lemma_meets_both(entries, two, read_needs(post));
    lemma_reads_present(entries, siglip_embeddings());
    lemma_reads_present(entries, post);
    lemma_tower_present(entries, layers);
    let connector = connector_needs(meta, vision);
    lemma_meets_each(entries, connector);
    assert(0 <= vision.hidden_size * vision.scale_factor * vision.scale_factor)
        by (nonlinear_arith);
    lemma_table(
        entries,
        "model.connector.modality_projection.proj.weight"@,
        meta.hidden_size,
        connector_cols(vision) as usize,
    );
    lemma_meets_both(entries, siglip_needs(layers), connector);
    lemma_meets_both(
        entries,
        siglip_needs(layers) + connector,
        llama_needs(meta, entries, "model.text_model"@),
    );
}

/// A decoder reads its embedding table, its output head, its last norm and then its
/// layers; the first gap in this order is what a load fails with.
pub proof fn law_decoder_reads_tables_first(
    meta: ModelMetadata,
    entries: Seq<TensorEntry>,
    prefix: Seq<char>,
)
    ensures
        ({
            let front = if prefix.len() == 0 {
                Seq::<char>::empty()
            } else {
                prefix + "."@
            };
            let shape = seq![meta.vocab_size, meta.hidden_size];
            let needs = llama_needs(meta, entries, prefix);
            let at = if !meta.tie_word_embeddings && lookup(entries, "lm_head.weight"@) is Some {
                4int
            } else {
                2
            };
            &&& needs.len() >= at + 1
            &&& needs[0] == (Need::Present { name: front + "embed_tokens.weight"@, rank: 2 })
            &&& needs[1] == (Need::Shape {
                label: "embed_tokens.weight"@,
                name: front + "embed_tokens.weight"@,
                expected: shape,
            })
            &&& at == 4 ==> needs[2] == (Need::Present { name: "lm_head.weight"@, rank: 2 })
            &&& at == 4 ==> needs[3] == (Need::Shape {
                label: "lm_head.weight"@,
                name: "lm_head.weight"@,
                expected: shape,
            })
            &&& needs[at] == (Need::Present { name: front + "norm.weight"@, rank: 1 })
            &&& meta.num_hidden_layers == 0 ==> needs.len() == at + 1
        }),
{
    let front = if prefix.len() == 0 {
        Seq::<char>::empty()
    } else {
        prefix + "."@
    };
    if prefix.len() == 0 {
        assert(prefix =~= front);
    }
    let head = head_needs(meta, entries, prefix);
    let needs = llama_needs(meta, entries, prefix);
    assert(forall|i: int| 0 <= i < head.len() ==> needs[i] == head[i]);
}

/// A layer with split projections reads these tensors, in this order.
pub proof fn law_split_layer_reads_in_order(
    meta: ModelMetadata,
    entries: Seq<TensorEntry>,
    p: Seq<char>,
)
    requires
        meta.countable(),
        lookup(entries, p + ".self_attn.q_proj.weight"@) is Some,
        lookup(entries, p + ".mlp.gate_proj.weight"@) is Some,
    ensures
        ({
            let arch = meta.architecture@;
            let gemma = arch == "gemma3"@ || arch == "gemma3_text"@;
            let q = p + ".self_attn.q_proj.weight"@;
            let k = p + ".self_attn.k_proj.weight"@;
            let q_rows = (meta.num_attention_heads * meta.head_dim) as usize;
            let kv_rows = (meta.num_key_value_heads * meta.head_dim) as usize;
            layer_needs(meta, norms_heads(arch), is_gemma(arch), entries, p) == seq![
                Need::Present { name: q, rank: 2 },
                Need::Present { name: k, rank: 2 },
                Need::Present { name: p + ".self_attn.v_proj.weight"@, rank: 2 },
                Need::Present { name: p + ".self_attn.o_proj.weight"@, rank: 2 },
                Need::Shape { label: q, name: q, expected: seq![q_rows, meta.hidden_size] },
                Need::Shape { label: k, name: k, expected: seq![kv_rows, meta.hidden_size] },
                Need::Present { name: p + ".mlp.gate_proj.weight"@, rank: 2 },
                Need::Present { name: p + ".mlp.up_proj.weight"@, rank: 2 },
                Need::Optional { name: p + ".self_attn.q_proj.bias"@, rank: 1 },
                Need::Optional { name: p + ".self_attn.k_proj.bias"@, rank: 1 },
                Need::Optional { name: p + ".self_attn.v_proj.bias"@, rank: 1 },
                Need::Optional { name: p + ".self_attn.o_proj.bias"@, rank: 1 },
            ] + (if gemma || arch == "qwen3"@ {
                seq![
                    Need::Optional { name: p + ".self_attn.q_norm.weight"@, rank: 1 },
                    Need::Optional { name: p + ".self_attn.k_norm.weight"@, rank: 1 },
                ]
            } else {
                Seq::empty()
            }) + seq![
                Need::Present { name: p + ".mlp.down_proj.weight"@, rank: 2 },
                Need::Present { name: p + ".input_layernorm.weight"@, rank: 1 },
            ] + (if gemma {
                seq![
                    Need::Present { name: p + ".pre_feedforward_layernorm.weight"@, rank: 1 },
                    Need::Optional { name: p + ".post_attention_layernorm.weight"@, rank: 1 },
                    Need::Optional { name: p + ".post_feedforward_layernorm.weight"@, rank: 1 },
                ]
            } else {
                seq![Need::Present { name: p + ".post_attention_layernorm.weight"@, rank: 1 }]
            })
        }),
{
    let arch = meta.architecture@;
    let needs = layer_needs(meta, norms_heads(arch), is_gemma(arch), entries, p);
    let gemma = arch == "gemma3"@ || arch == "gemma3_text"@;
    let q = p + ".self_attn.q_proj.weight"@;
    let k = p + ".self_attn.k_proj.weight"@;
    let q_rows = (meta.num_attention_heads * meta.head_dim) as usize;
    let kv_rows = (meta.num_key_value_heads * meta.head_dim) as usize;
    let front = seq![
        Need::Present { name: q, rank: 2 },
        Need::Present { name: k, rank: 2 },
        Need::Present { name: p + ".self_attn.v_proj.weight"@, rank: 2 },
        Need::Present { name: p + ".self_attn.o_proj.weight"@, rank: 2 },
        Need::Shape { label: q, name: q, expected: seq![q_rows, meta.hidden_size] },
        Need::Shape { label: k, name: k, expected: seq![kv_rows, meta.hidden_size] },
        Need::Present { name: p + ".mlp.gate_proj.weight"@, rank: 2 },
        Need::Present { name: p + ".mlp.up_proj.weight"@, rank: 2 },
        Need::Optional { name: p + ".self_attn.q_proj.bias"@, rank: 1 },
        Need::Optional { name: p + ".self_attn.k_proj.bias"@, rank: 1 },
        Need::Optional { name: p + ".self_attn.v_proj.bias"@, rank: 1 },
        Need::Optional { name: p + ".self_attn.o_proj.bias"@, rank: 1 },
    ];
    assert(attention_needs(meta, entries, p) + seq![need(p + ".self_attn.o_proj.weight"@, 2)]
        + attention_shapes(meta, entries, p) + mlp_needs(meta, entries, p) + bias_needs(entries, p)
        =~= front);
    let norms = qk_norm_needs(norms_heads(arch), p);
    let back = tail_needs(is_gemma(arch), p) + sandwich_needs(is_gemma(arch), p);
    assert(needs =~= front + norms + back);
    if gemma {
        assert(back =~= seq![
            Need::Present { name: p + ".mlp.down_proj.weight"@, rank: 2 },
            Need::Present { name: p + ".input_layernorm.weight"@, rank: 1 },
        ] + seq![
            Need::Present { name: p + ".pre_feedforward_layernorm.weight"@, rank: 1 },
            Need::Optional { name: p + ".post_attention_layernorm.weight"@, rank: 1 },
            Need::Optional { name: p + ".post_feedforward_layernorm.weight"@, rank: 1 },
        ]);
    } else {
        assert(back =~= seq![
            Need::Present { name: p + ".mlp.down_proj.weight"@, rank: 2 },
            Need::Present { name: p + ".input_layernorm.weight"@, rank: 1 },
        ] + seq![Need::Present { name: p + ".post_attention_layernorm.weight"@, rank: 1 }]);
    }
}

/// A layer with fused projections reads the fused attention projection and its bias
/// first, then the output projection, and then the fused feed-forward projection.
pub proof fn law_fused_layer_reads_in_order(
    meta: ModelMetadata,
    entries: Seq<TensorEntry>,
    p: Seq<char>,
)
    requires
        meta.countable(),
        lookup(entries, p + ".self_attn.q_proj.weight"@) is None,
        lookup(entries, p + ".mlp.gate_proj.weight"@) is None,
    ensures
        ({
            let arch = meta.architecture@;
            let weight = p + ".self_attn.qkv_proj.weight"@;
            let bias = p + ".self_attn.qkv_proj.bias"@;
            let wide = p + ".mlp.gate_up_proj.weight"@;
            let q_rows = (meta.num_attention_heads * meta.head_dim) as usize;
            let kv_rows = (meta.num_key_value_heads * meta.head_dim) as usize;
            let rows = (meta.num_attention_heads * meta.head_dim + 2 * (meta.num_key_value_heads
                * meta.head_dim)) as usize;
            layer_needs(meta, norms_heads(arch), is_gemma(arch), entries, p).take(9) == seq![
                Need::Present { name: weight, rank: 2 },
                Need::Rows { name: weight, rows },
                Need::Optional { name: bias, rank: 1 },
                Need::OptionalRows { name: bias, rows },
                Need::Present { name: p + ".self_attn.o_proj.weight"@, rank: 2 },
                Need::PartShape {
                    label: p + ".self_attn.q_proj.weight"@,
                    name: weight,
                    rows: q_rows,
                    cols: meta.hidden_size,
                },
                Need::PartShape {
                    label: p + ".self_attn.k_proj.weight"@,
                    name: weight,
                    rows: kv_rows,
                    cols: meta.hidden_size,
                },
                Need::Present { name: wide, rank: 2 },
                Need::Rows { name: wide, rows: (2 * meta.intermediate_size) as usize },
            ]
        }),
{
    let arch = meta.architecture@;
    let needs = layer_needs(meta, norms_heads(arch), is_gemma(arch), entries, p);
    let front = attention_needs(meta, entries, p) + seq![need(p + ".self_attn.o_proj.weight"@, 2)]
        + attention_shapes(meta, entries, p) + mlp_needs(meta, entries, p);
    let back = bias_needs(entries, p) + qk_norm_needs(norms_heads(arch), p) + tail_needs(
        is_gemma(arch),
        p,
    ) + sandwich_needs(is_gemma(arch), p);
    assert(needs =~= front + back);
    assert(needs.take(9) =~= front);
}

/// The layers of a decoder are read one after the other: the needs of the first
/// `count` layers begin with those of the first ones.
pub proof fn law_layers_read_in_order(
    meta: ModelMetadata,
    entries: Seq<TensorEntry>,
    prefix: Seq<char>,
    count: int,
)
    requires
        0 <= count,
    ensures
        ({
            let front = if prefix.len() == 0 {
                Seq::<char>::empty()
            } else {
                prefix + "."@
            };
            let arch = meta.architecture@;
            let until = |n: int|
                layers_needs(meta, norms_heads(arch), is_gemma(arch), entries, prefix, n);
            &&& until(0).len() == 0
            &&& until(count + 1) == until(count) + layer_needs(
                meta,
                norms_heads(arch),
                is_gemma(arch),
                entries,
                front + "layers."@ + decimal(count),
            )
        }),
{
    let front = if prefix.len() == 0 {
        Seq::<char>::empty()
    } else {
        prefix + "."@
    };
    if prefix.len() == 0 {
        assert(prefix =~= front);
    }
    assert(layer_name(prefix, count) == front + "layers."@ + decimal(count));
}

/// A speech model reads its stem, its encoder layers, its decoder layers and then
/// the rest; the first tensor that is not there is what a load fails with.
pub proof fn law_speech_reads_in_order(layers: int, i: int, k: int)
    requires
        0 <= i < layers,
    ensures
        ({
            let needs = whisper_needs(layers);
            &&& needs.len() == 3 + 15 * layers + 24 * layers + 8
            &&& 0 <= k < 3 ==> needs[k] == read_needs(whisper_stem())[k]
            &&& 0 <= k < 15 ==> needs[3 + 15 * i + k] == read_needs(
                encoder_set("model.encoder.layers."@ + decimal(i)),
            )[k]
            &&& 0 <= k < 24 ==> needs[3 + 15 * layers + 24 * i + k] == read_needs(
                decoder_set("model.decoder.layers."@ + decimal(i)),
            )[k]
            &&& 0 <= k < 8 ==> needs[3 + 15 * layers + 24 * layers + k] == read_needs(
                whisper_tail(),
            )[k]
        }),
{
    lemma_encoder_order(layers, i, k);
    lemma_decoder_order(layers, i, k);
}

/// The needs of the encoder layers stand one layer behind the other.
proof fn lemma_encoder_order(count: int, i: int, k: int)
    requires
        0 <= count,
    ensures
        encoder_needs(count).len() == 15 * count,
        0 <= i < count && 0 <= k < 15 ==> encoder_needs(count)[15 * i + k] == read_needs(
            encoder_set(encoder_layer(i)),
        )[k],
    decreases count,
{
    if count > 0 {
        lemma_encoder_order(count - 1, i, k);
        assert(read_needs(encoder_set(encoder_layer(count - 1))).len() == 15);
    }
}

/// The needs of the decoder layers stand one layer behind the other.
proof fn lemma_decoder_order(count: int, i: int, k: int)
    requires
        0 <= count,
    ensures
        decoder_needs(count).len() == 24 * count,
        0 <= i < count && 0 <= k < 24 ==> decoder_needs(count)[24 * i + k] == read_needs(
            decoder_set(decoder_layer(i)),
        )[k],
    decreases count,
{
    if count > 0 {
        lemma_decoder_order(count - 1, i, k);
        assert(read_needs(decoder_set(decoder_layer(count - 1))).len() == 24);
    }
}

/// A read asks for its tensor with its number of dimensions.
pub proof fn law_reads_ask_for_tensors(reads: Seq<(Seq<char>, int)>, k: int)
    requires
        0 <= k < reads.len(),
    ensures
        read_needs(reads).len() == reads.len(),
        read_needs(reads)[k] == (Need::Present { name: reads[k].0, rank: reads[k].1 }),
{
}

/// A vision language model reads its tower, then the projection, and then its
/// decoder under `model.text_model`.
pub proof fn law_vision_reads_in_order(
    meta: ModelMetadata,
    vision: VisionConfig,
    entries: Seq<TensorEntry>,
    i: int,
    k: int,
)
    requires
        0 <= i < vision.num_hidden_layers,
        vision.hidden_size * vision.scale_factor * vision.scale_factor <= usize::MAX,
    ensures
        ({
            let needs = smolvlm_needs(meta, vision, entries);
            let layers = vision.num_hidden_layers as int;
            let text = llama_needs(meta, entries, "model.text_model"@);
            let name = "model.connector.modality_projection.proj.weight"@;
            let at = 3 + 16 * layers + 2;
            &&& needs.len() == at + 2 + text.len()
            &&& 0 <= k < 3 ==> needs[k] == read_needs(siglip_embeddings())[k]
            &&& 0 <= k < 16 ==> needs[3 + 16 * i + k] == read_needs(
                siglip_set("model.vision_model.encoder.layers."@ + decimal(i)),
            )[k]
            &&& 0 <= k < 2 ==> needs[3 + 16 * layers + k] == read_needs(
                norm_pair("model.vision_model.post_layernorm"@),
            )[k]
            &&& needs[at] == (Need::Present { name, rank: 2 })
            &&& needs[at + 1] == (Need::Shape {
                label: name,
                name,
                expected: seq![
                    meta.hidden_size,
                    (vision.hidden_size * vision.scale_factor * vision.scale_factor) as usize,
                ],
            })
            &&& 0 <= k < text.len() ==> needs[at + 2 + k] == text[k]
        }),
{
    lemma_tower_order(vision.num_hidden_layers as int, i, k);
}

/// The needs of the layers of a tower stand one layer behind the other.
proof fn lemma_tower_order(count: int, i: int, k: int)
    requires
        0 <= count,
    ensures
        siglip_layers_needs(count).len() == 16 * count,
        0 <= i < count && 0 <= k < 16 ==> siglip_layers_needs(count)[16 * i + k] == read_needs(
            siglip_set(siglip_layer(i)),
        )[k],
    decreases count,
{
    if count > 0 {
        lemma_tower_order(count - 1, i, k);
        assert(read_needs(siglip_set(siglip_layer(count - 1))).len() == 16);
    }
}

/// A Gemma model reads its tables first and then its layers, each beginning with
/// the query and key projections, whose shapes are looked at before anything else
/// is read.
pub proof fn law_gemma_reads_in_order(
    meta: ModelMetadata,
    entries: Seq<TensorEntry>,
    i: int,
    k: int,
)
    requires
        meta.q_rows() <= usize::MAX,
        meta.kv_rows() <= usize::MAX,
        0 <= i < meta.num_hidden_layers,
    ensures
        ({
            let needs = gemma_needs(meta, entries);
            let shape = seq![meta.vocab_size, meta.hidden_size];
            let at = if !meta.tie_word_embeddings && lookup(entries, "lm_head.weight"@) is Some {
                4int
            } else {
                2
            };
            let p = "model.layers."@ + decimal(i);
            let (q, key) = (p + ".self_attn.q_proj.weight"@, p + ".self_attn.k_proj.weight"@);
            let start = at + 1 + 15 * i;
            let reads = under(p, gemma_front() + gemma_back());
            &&& needs.len() == at + 1 + 15 * meta.num_hidden_layers
            &&& needs[0] == (Need::Present { name: "model.embed_tokens.weight"@, rank: 2 })
            &&& needs[1] == (Need::Shape {
                label: "model.embed_tokens.weight"@,
                name: "model.embed_tokens.weight"@,
                expected: shape,
            })
            &&& at == 4 ==> needs[2] == (Need::Present { name: "lm_head.weight"@, rank: 2 })
            &&& at == 4 ==> needs[3] == (Need::Shape {
                label: "lm_head.weight"@,
                name: "lm_head.weight"@,
                expected: shape,
            })
            &&& needs[at] == (Need::Present { name: "model.norm.weight"@, rank: 1 })
            &&& needs[start] == (Need::Present { name: q, rank: 2 })
            &&& needs[start + 1] == (Need::Present { name: key, rank: 2 })
            &&& needs[start + 2] == (Need::Shape {
                label: q,
                name: q,
                expected: seq![
                    (meta.num_attention_heads * meta.head_dim) as usize,
                    meta.hidden_size,
                ],
            })
            &&& needs[start + 3] == (Need::Shape {
                label: key,
                name: key,
                expected: seq![
                    (meta.num_key_value_heads * meta.head_dim) as usize,
                    meta.hidden_size,
                ],
            })
            &&& 2 <= k < 13 ==> needs[start + 2 + k] == read_needs(reads)[k]
        }),
{
    let head = gemma_head_needs(meta, entries);
    let needs = gemma_needs(meta, entries);
    let p = gemma_layer(i);
    assert(forall|j: int| 0 <= j < head.len() ==> needs[j] == head[j]);
    let at = head.len() as int;
    lemma_gemma_order(meta, meta.num_hidden_layers as int, i, 0);
    lemma_gemma_order(meta, meta.num_hidden_layers as int, i, 1);
    lemma_gemma_order(meta, meta.num_hidden_layers as int, i, 2);
    lemma_gemma_order(meta, meta.num_hidden_layers as int, i, 3);
    lemma_gemma_order(meta, meta.num_hidden_layers as int, i, k + 2);
    let layer = gemma_layer_needs(meta, p);
    let reads = under(p, gemma_front() + gemma_back());
    assert(under(p, gemma_front())[0].0 == p + ".self_attn.q_proj.weight"@);
    assert(under(p, gemma_front())[1].0 == p + ".self_attn.k_proj.weight"@);
    if 2 <= k < 13 {
        assert(layer[k + 2] == read_needs(under(p, gemma_back()))[k - 2]);
        assert(reads[k] == under(p, gemma_back())[k - 2]);
    }
}

/// The needs of the layers of a Gemma model stand one layer behind the other.
proof fn lemma_gemma_order(meta: ModelMetadata, count: int, i: int, k: int)
    requires
        0 <= count,
    ensures
        gemma_layers_needs(meta, count).len() == 15 * count,
        0 <= i < count && 0 <= k < 15 ==> gemma_layers_needs(meta, count)[15 * i + k]
            == gemma_layer_needs(meta, gemma_layer(i))[k],
    decreases count,
{
    if count > 0 {
        lemma_gemma_order(meta, count - 1, i, k);
        assert(gemma_layer_needs(meta, gemma_layer(count - 1)).len() == 15);
    }
}

} // verus!
