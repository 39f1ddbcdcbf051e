//! What holds between the plans of related checkpoints: one that fuses
//! projections and one that splits them, one with biases and one without.

use vstd::prelude::*;

use crate::archspec::is_gemma;
use crate::catalog::{lookup, meets, meets_all, settles, unmet, with_rows, Need, TensorEntry};
use crate::error::{is_bad_shape, Result};
use crate::llama::{
    attention_needs, attention_shapes, bias_needs, detected_prefix, dotted, fused_rows,
    has_fused_bias, head_needs, is_name_if, is_part, is_whole_if,
    law_fused_attention_matches_split, law_fused_mlp_matches_split, layer_name, layer_needs,
    layer_planned, layers_needs, lists, llama_needs, llama_planned, mlp_needs, need, norms_heads,
    own_head, part_rows, pre_mlp_name, qk_norm_needs, sandwich_needs, tail_needs, LlamaLayerPlan,
    LlamaPlan, Part,
};
use crate::metadata::ModelMetadata;
use crate::staged::ends_with;

verus! {

/// The rows of each tensor of a checkpoint, by its name.
pub type Contents<V> = spec_fn(Seq<char>) -> Seq<V>;

/// `r` is what loading a checkpoint with these tensors ends with.
pub open spec fn llama_outcome(
    r: Result<LlamaPlan>,
    meta: ModelMetadata,
    entries: Seq<TensorEntry>,
    prefix: Seq<char>,
) -> bool {
    &&& settles(entries, llama_needs(meta, entries, prefix), r)
    &&& r matches Ok(plan) ==> llama_planned(plan, meta, entries, prefix)
}

/// A projection that a checkpoint may fuse with others, fused or split, or the
/// bias of one.
pub open spec fn names_projection(name: Seq<char>) -> bool {
    ||| ends_with(name, ".self_attn.q_proj.weight"@)
    ||| ends_with(name, ".self_attn.k_proj.weight"@)
    ||| ends_with(name, ".self_attn.v_proj.weight"@)
    ||| ends_with(name, ".self_attn.qkv_proj.weight"@)
    ||| ends_with(name, ".mlp.gate_proj.weight"@)
    ||| ends_with(name, ".mlp.up_proj.weight"@)
    ||| ends_with(name, ".mlp.gate_up_proj.weight"@)
    ||| ends_with(name, ".self_attn.q_proj.bias"@)
    ||| ends_with(name, ".self_attn.k_proj.bias"@)
    ||| ends_with(name, ".self_attn.v_proj.bias"@)
    ||| ends_with(name, ".self_attn.qkv_proj.bias"@)
}

/// The bias of an attention projection.
pub open spec fn names_bias(name: Seq<char>) -> bool {
    ||| ends_with(name, ".self_attn.q_proj.bias"@)
    ||| ends_with(name, ".self_attn.k_proj.bias"@)
    ||| ends_with(name, ".self_attn.v_proj.bias"@)
    ||| ends_with(name, ".self_attn.o_proj.bias"@)
    ||| ends_with(name, ".self_attn.qkv_proj.bias"@)
}

/// A character of a text, counted from its end.
spec fn back(name: Seq<char>, i: int) -> char {
    name[name.len() - i]
}

/// A text that ends with another has its last characters.
proof fn lemma_back(name: Seq<char>, end: Seq<char>, i: int)
    requires
        ends_with(name, end),
        1 <= i <= end.len(),
    ensures
        back(name, i) == back(end, i),
{
    assert(name.skip(name.len() - end.len())[end.len() - i] == name[name.len() - i]);
}

/// A longer text has the last characters of what it ends with.
proof fn lemma_joined(p: Seq<char>, end: Seq<char>)
    ensures
        ends_with(p + end, end),
{
    assert((p + end).skip(p.len() as int) =~= end);
}

/// How the name of a projection ends.
spec fn projection_tail(name: Seq<char>) -> bool {
    ||| {
        &&& back(name, 1) == 't'
        &&& back(name, 8) == 'j'
        &&& (back(name, 13) == 'q' || back(name, 13) == 'k' || back(name, 13) == 'v' || back(
            name,
            13,
        ) == 'e' || back(name, 13) == 'p')
    }
    ||| {
        &&& back(name, 1) == 's'
        &&& back(name, 2) == 'a'
        &&& (back(name, 11) == 'q' || back(name, 11) == 'k' || back(name, 11) == 'v')
    }
}

/// A name has the tail of what it ends with.
proof fn lemma_tail(name: Seq<char>, end: Seq<char>)
    requires
        ends_with(name, end),
        end.len() >= 13,
        projection_tail(end),
    ensures
        projection_tail(name),
{
    lemma_back(name, end, 1);
    lemma_back(name, end, 2);
    lemma_back(name, end, 8);
    lemma_back(name, end, 11);
    lemma_back(name, end, 13);
}

/// Every name of a projection has one of their tails.
proof fn lemma_projection_tail(name: Seq<char>)
    requires
        names_projection(name),
    ensures
        projection_tail(name),
{
    reveal_strlit(".self_attn.q_proj.weight");
    reveal_strlit(".self_attn.k_proj.weight");
    reveal_strlit(".self_attn.v_proj.weight");
    reveal_strlit(".self_attn.qkv_proj.weight");
    reveal_strlit(".mlp.gate_proj.weight");
    reveal_strlit(".mlp.up_proj.weight");
    reveal_strlit(".mlp.gate_up_proj.weight");
    reveal_strlit(".self_attn.q_proj.bias");
    reveal_strlit(".self_attn.k_proj.bias");
    reveal_strlit(".self_attn.v_proj.bias");
    reveal_strlit(".self_attn.qkv_proj.bias");
    if ends_with(name, ".self_attn.q_proj.weight"@) {
        lemma_tail(name, ".self_attn.q_proj.weight"@);
    } else if ends_with(name, ".self_attn.k_proj.weight"@) {
        lemma_tail(name, ".self_attn.k_proj.weight"@);
    } else if ends_with(name, ".self_attn.v_proj.weight"@) {
        lemma_tail(name, ".self_attn.v_proj.weight"@);
    } else if ends_with(name, ".self_attn.qkv_proj.weight"@) {
        lemma_tail(name, ".self_attn.qkv_proj.weight"@);
    } else if ends_with(name, ".mlp.gate_proj.weight"@) {
        lemma_tail(name, ".mlp.gate_proj.weight"@);
    } else if ends_with(name, ".mlp.up_proj.weight"@) {
        lemma_tail(name, ".mlp.up_proj.weight"@);
    } else if ends_with(name, ".mlp.gate_up_proj.weight"@) {
        lemma_tail(name, ".mlp.gate_up_proj.weight"@);
    } else if ends_with(name, ".self_attn.q_proj.bias"@) {
        lemma_tail(name, ".self_attn.q_proj.bias"@);
    } else if ends_with(name, ".self_attn.k_proj.bias"@) {
        lemma_tail(name, ".self_attn.k_proj.bias"@);
    } else if ends_with(name, ".self_attn.v_proj.bias"@) {
        lemma_tail(name, ".self_attn.v_proj.bias"@);
    } else {
        lemma_tail(name, ".self_attn.qkv_proj.bias"@);
    }
}

/// Every name of a bias ends like the word.
proof fn lemma_bias_tail(name: Seq<char>)
    requires
        names_bias(name),
    ensures
        back(name, 1) == 's',
        back(name, 2) == 'a',
{
    reveal_strlit(".self_attn.q_proj.bias");
    reveal_strlit(".self_attn.k_proj.bias");
    reveal_strlit(".self_attn.v_proj.bias");
    reveal_strlit(".self_attn.o_proj.bias");
    reveal_strlit(".self_attn.qkv_proj.bias");
    let end = if ends_with(name, ".self_attn.q_proj.bias"@) {
        ".self_attn.q_proj.bias"@
    } else if ends_with(name, ".self_attn.k_proj.bias"@) {
        ".self_attn.k_proj.bias"@
    } else if ends_with(name, ".self_attn.v_proj.bias"@) {
        ".self_attn.v_proj.bias"@
    } else if ends_with(name, ".self_attn.o_proj.bias"@) {
        ".self_attn.o_proj.bias"@
    } else {
        ".self_attn.qkv_proj.bias"@
    };
    lemma_back(name, end, 1);
    lemma_back(name, end, 2);
}

/// A name behind which `end` stands, where `end` is that of no projection.
proof fn lemma_plain_end(p: Seq<char>, end: Seq<char>)
    requires
        end.len() >= 8,
        back(end, 1) == 't',
        back(end, 8) != 'j' || (end.len() >= 13 && (back(end, 13) == 'o' || back(end, 13) == 'n')),
    ensures
        !names_projection(p + end),
        !names_bias(p + end),
{
    let name = p + end;
    lemma_joined(p, end);
    lemma_back(name, end, 1);
    lemma_back(name, end, 8);
    if end.len() >= 13 {
        lemma_back(name, end, 13);
    }
    if names_projection(name) {
        lemma_projection_tail(name);
    }
    if names_bias(name) {
        lemma_bias_tail(name);
    }
}

/// The output bias is no projection that can be fused.
proof fn lemma_output_bias(p: Seq<char>)
    ensures
        !names_projection(p + ".self_attn.o_proj.bias"@),
{
    let end = ".self_attn.o_proj.bias"@;
    reveal_strlit(".self_attn.o_proj.bias");
    let name = p + end;
    lemma_joined(p, end);
    lemma_back(name, end, 1);
    lemma_back(name, end, 11);
    if names_projection(name) {
        lemma_projection_tail(name);
    }
}

/// The names of a layer that belong to no projection.
proof fn lemma_layer_names(p: Seq<char>)
    ensures
        forall|sandwich: bool|
            !names_projection(#[trigger] pre_mlp_name(sandwich, p)) && !names_bias(
                pre_mlp_name(sandwich, p),
            ),
        !names_projection(p + ".self_attn.o_proj.weight"@),
        !names_projection(p + ".self_attn.o_proj.bias"@),
        !names_projection(p + ".self_attn.q_norm.weight"@),
        !names_projection(p + ".self_attn.k_norm.weight"@),
        !names_projection(p + ".mlp.down_proj.weight"@),
        !names_projection(p + ".input_layernorm.weight"@),
        !names_projection(p + ".post_attention_layernorm.weight"@),
        !names_projection(p + ".post_feedforward_layernorm.weight"@),
        !names_bias(p + ".self_attn.o_proj.weight"@),
        !names_bias(p + ".self_attn.q_norm.weight"@),
        !names_bias(p + ".self_attn.k_norm.weight"@),
        !names_bias(p + ".mlp.down_proj.weight"@),
        !names_bias(p + ".input_layernorm.weight"@),
        !names_bias(p + ".post_attention_layernorm.weight"@),
        !names_bias(p + ".post_feedforward_layernorm.weight"@),
{
    reveal_strlit(".self_attn.o_proj.weight");
    reveal_strlit(".self_attn.q_norm.weight");
    reveal_strlit(".self_attn.k_norm.weight");
    reveal_strlit(".mlp.down_proj.weight");
    reveal_strlit(".input_layernorm.weight");
    reveal_strlit(".post_attention_layernorm.weight");
    reveal_strlit(".post_feedforward_layernorm.weight");
    reveal_strlit(".pre_feedforward_layernorm.weight");
    lemma_output_bias(p);
    lemma_plain_end(p, ".self_attn.o_proj.weight"@);
    lemma_plain_end(p, ".self_attn.q_norm.weight"@);
    lemma_plain_end(p, ".self_attn.k_norm.weight"@);
    lemma_plain_end(p, ".mlp.down_proj.weight"@);
    lemma_plain_end(p, ".input_layernorm.weight"@);
    lemma_plain_end(p, ".post_attention_layernorm.weight"@);
    lemma_plain_end(p, ".post_feedforward_layernorm.weight"@);
    lemma_plain_end(p, ".pre_feedforward_layernorm.weight"@);
}

/// The weights of the projections are no biases.
proof fn lemma_weights_are_no_biases(p: Seq<char>)
    ensures
        !names_bias(p + ".self_attn.q_proj.weight"@),
        !names_bias(p + ".self_attn.k_proj.weight"@),
        !names_bias(p + ".self_attn.v_proj.weight"@),
        !names_bias(p + ".self_attn.qkv_proj.weight"@),
        !names_bias(p + ".mlp.gate_proj.weight"@),
        !names_bias(p + ".mlp.up_proj.weight"@),
        !names_bias(p + ".mlp.gate_up_proj.weight"@),
{
    reveal_strlit(".self_attn.q_proj.weight");
    reveal_strlit(".self_attn.k_proj.weight");
    reveal_strlit(".self_attn.v_proj.weight");
    reveal_strlit(".self_attn.qkv_proj.weight");
    reveal_strlit(".mlp.gate_proj.weight");
    reveal_strlit(".mlp.up_proj.weight");
    reveal_strlit(".mlp.gate_up_proj.weight");
    lemma_weight_end(p, ".self_attn.q_proj.weight"@);
    lemma_weight_end(p, ".self_attn.k_proj.weight"@);
    lemma_weight_end(p, ".self_attn.v_proj.weight"@);
    lemma_weight_end(p, ".self_attn.qkv_proj.weight"@);
    lemma_weight_end(p, ".mlp.gate_proj.weight"@);
    lemma_weight_end(p, ".mlp.up_proj.weight"@);
    lemma_weight_end(p, ".mlp.gate_up_proj.weight"@);
}

/// A name that ends like a weight is no bias.
proof fn lemma_weight_end(p: Seq<char>, end: Seq<char>)
    requires
        end.len() >= 1,
        back(end, 1) == 't',
    ensures
        !names_bias(p + end),
{
    let name = p + end;
    lemma_joined(p, end);
    lemma_back(name, end, 1);
    if names_bias(name) {
        lemma_bias_tail(name);
    }
}

/// The names outside the layers belong to no projection.
proof fn lemma_head_names(prefix: Seq<char>)
    ensures
        !names_projection(dotted(prefix) + "embed_tokens.weight"@),
        !names_projection("lm_head.weight"@),
        !names_projection(dotted(prefix) + "norm.weight"@),
        !names_projection("model.embed_tokens.weight"@),
        !names_projection("model.embed_tokens"@),
        !names_bias(dotted(prefix) + "embed_tokens.weight"@),
        !names_bias("lm_head.weight"@),
        !names_bias(dotted(prefix) + "norm.weight"@),
        !names_bias("model.embed_tokens.weight"@),
        !names_bias("model.embed_tokens"@),
{
    reveal_strlit("embed_tokens.weight");
    reveal_strlit("lm_head.weight");
    reveal_strlit("norm.weight");
    reveal_strlit("model.embed_tokens.weight");
    reveal_strlit("model.embed_tokens");
    lemma_plain_end(dotted(prefix), "embed_tokens.weight"@);
    lemma_plain_end(dotted(prefix), "norm.weight"@);
    let nothing = Seq::<char>::empty();
    assert(nothing + "lm_head.weight"@ =~= "lm_head.weight"@);
    assert(nothing + "model.embed_tokens.weight"@ =~= "model.embed_tokens.weight"@);
    lemma_plain_end(nothing, "lm_head.weight"@);
    lemma_plain_end(nothing, "model.embed_tokens.weight"@);
    if names_projection("model.embed_tokens"@) {
        lemma_projection_tail("model.embed_tokens"@);
    }
    if names_bias("model.embed_tokens"@) {
        lemma_bias_tail("model.embed_tokens"@);
    }
}

/// The tensor that a need speaks of.
spec fn name_of(need: Need) -> Seq<char> {
    match need {
        Need::Present { name, .. } => name,
        Need::Optional { name, .. } => name,
        Need::Shape { name, .. } => name,
        Need::Rows { name, .. } => name,
        Need::OptionalRows { name, .. } => name,
        Need::PartShape { name, .. } => name,
    }
}

/// Checkpoints that agree on the tensors that are needed meet the needs alike.
proof fn lemma_meets_alike(a: Seq<TensorEntry>, b: Seq<TensorEntry>, needs: Seq<Need>)
    requires
        forall|i: int|
            0 <= i < needs.len() ==> lookup(a, name_of(#[trigger] needs[i])) == lookup(
                b,
                name_of(needs[i]),
            ),
    ensures
        meets_all(a, needs) == meets_all(b, needs),
{
    assert forall|i: int| 0 <= i < needs.len() implies meets(a, #[trigger] needs[i]) == meets(
        b,
        needs[i],
    ) by {
        assert(lookup(a, name_of(needs[i])) == lookup(b, name_of(needs[i])));
    }
    if meets_all(a, needs) {
        assert forall|i: int| 0 <= i < needs.len() implies meets(b, #[trigger] needs[i]) by {
            assert(meets(a, needs[i]));
        }
    }
    if meets_all(b, needs) {
        assert forall|i: int| 0 <= i < needs.len() implies meets(a, #[trigger] needs[i]) by {
            assert(meets(b, needs[i]));
        }
    }
}

/// Needs behind one another are met when both are.
pub(crate) proof fn lemma_meets_both(entries: Seq<TensorEntry>, x: Seq<Need>, y: Seq<Need>)
    ensures
        meets_all(entries, x + y) == (meets_all(entries, x) && meets_all(entries, y)),
{
    let all = x + y;
    if meets_all(entries, all) {
        assert forall|i: int| 0 <= i < x.len() implies meets(entries, #[trigger] x[i]) by {
            assert(all[i] == x[i]);
        }
        assert forall|i: int| 0 <= i < y.len() implies meets(entries, #[trigger] y[i]) by {
            assert(all[x.len() + i] == y[i]);
        }
    }
    if meets_all(entries, x) && meets_all(entries, y) {
        assert forall|i: int| 0 <= i < all.len() implies meets(entries, #[trigger] all[i]) by {
            if i < x.len() {
                assert(all[i] == x[i]);
            } else {
                assert(all[i] == y[i - x.len()]);
            }
        }
    }
}

/// The needs of a layer are met when those of each of its parts are.
pub(crate) proof fn lemma_layer_meets(
    meta: ModelMetadata,
    qk_norm: bool,
    sandwich: bool,
    entries: Seq<TensorEntry>,
    p: Seq<char>,
)
    ensures
        meets_all(entries, layer_needs(meta, qk_norm, sandwich, entries, p)) == {
            &&& meets_all(entries, attention_needs(meta, entries, p))
            &&& meets_all(entries, seq![need(p + ".self_attn.o_proj.weight"@, 2)])
            &&& meets_all(entries, attention_shapes(meta, entries, p))
            &&& meets_all(entries, mlp_needs(meta, entries, p))
            &&& meets_all(entries, bias_needs(entries, p))
            &&& meets_all(entries, qk_norm_needs(qk_norm, p))
            &&& meets_all(entries, tail_needs(sandwich, p))
            &&& meets_all(entries, sandwich_needs(sandwich, p))
        },
{
    let n1 = attention_needs(meta, entries, p);
    let n2 = n1 + seq![need(p + ".self_attn.o_proj.weight"@, 2)];
    let n3 = n2 + attention_shapes(meta, entries, p);
    let n4 = n3 + mlp_needs(meta, entries, p);
    let n5 = n4 + bias_needs(entries, p);
    let n6 = n5 + qk_norm_needs(qk_norm, p);
    let n7 = n6 + tail_needs(sandwich, p);
    lemma_meets_both(entries, n1, seq![need(p + ".self_attn.o_proj.weight"@, 2)]);
    lemma_meets_both(entries, n2, attention_shapes(meta, entries, p));
    lemma_meets_both(entries, n3, mlp_needs(meta, entries, p));
    lemma_meets_both(entries, n4, bias_needs(entries, p));
    lemma_meets_both(entries, n5, qk_norm_needs(qk_norm, p));
    lemma_meets_both(entries, n6, tail_needs(sandwich, p));
    lemma_meets_both(entries, n7, sandwich_needs(sandwich, p));
}

/// Checkpoints that agree outside the projections meet the needs of a layer alike
/// that are about nothing else.
proof fn lemma_common_needs(
    a: Seq<TensorEntry>,
    b: Seq<TensorEntry>,
    qk_norm: bool,
    sandwich: bool,
    p: Seq<char>,
)
    requires
        lookup(a, p + ".self_attn.o_proj.weight"@) == lookup(b, p + ".self_attn.o_proj.weight"@),
        lookup(a, p + ".self_attn.q_norm.weight"@) == lookup(b, p + ".self_attn.q_norm.weight"@),
        lookup(a, p + ".self_attn.k_norm.weight"@) == lookup(b, p + ".self_attn.k_norm.weight"@),
        lookup(a, p + ".mlp.down_proj.weight"@) == lookup(b, p + ".mlp.down_proj.weight"@),
        lookup(a, p + ".input_layernorm.weight"@) == lookup(b, p + ".input_layernorm.weight"@),
        lookup(a, pre_mlp_name(sandwich, p)) == lookup(b, pre_mlp_name(sandwich, p)),
        lookup(a, p + ".post_attention_layernorm.weight"@) == lookup(
            b,
            p + ".post_attention_layernorm.weight"@,
        ),
        lookup(a, p + ".post_feedforward_layernorm.weight"@) == lookup(
            b,
            p + ".post_feedforward_layernorm.weight"@,
        ),
    ensures
        meets_all(a, seq![need(p + ".self_attn.o_proj.weight"@, 2)]) == meets_all(
            b,
            seq![need(p + ".self_attn.o_proj.weight"@, 2)],
        ),
        meets_all(a, qk_norm_needs(qk_norm, p)) == meets_all(b, qk_norm_needs(qk_norm, p)),
        meets_all(a, tail_needs(sandwich, p)) == meets_all(b, tail_needs(sandwich, p)),
        meets_all(a, sandwich_needs(sandwich, p)) == meets_all(b, sandwich_needs(sandwich, p)),
{
    lemma_meets_alike(a, b, seq![need(p + ".self_attn.o_proj.weight"@, 2)]);
    lemma_meets_alike(a, b, qk_norm_needs(qk_norm, p));
    lemma_meets_alike(a, b, tail_needs(sandwich, p));
    lemma_meets_alike(a, b, sandwich_needs(sandwich, p));
}

/// Checkpoints that agree outside the layers meet the needs there alike.
proof fn lemma_head_meets(
    a: Seq<TensorEntry>,
    b: Seq<TensorEntry>,
    meta: ModelMetadata,
    prefix: Seq<char>,
)
    requires
        lookup(a, dotted(prefix) + "embed_tokens.weight"@) == lookup(
            b,
            dotted(prefix) + "embed_tokens.weight"@,
        ),
        lookup(a, "lm_head.weight"@) == lookup(b, "lm_head.weight"@),
        lookup(a, dotted(prefix) + "norm.weight"@) == lookup(b, dotted(prefix) + "norm.weight"@),
    ensures
        own_head(meta, a) == own_head(meta, b),
        meets_all(a, head_needs(meta, a, prefix)) == meets_all(b, head_needs(meta, b, prefix)),
{
    let needs = head_needs(meta, a, prefix);
    assert(needs == head_needs(meta, b, prefix));
    assert forall|i: int| 0 <= i < needs.len() implies lookup(a, name_of(#[trigger] needs[i]))
        == lookup(b, name_of(needs[i])) by {
        assert(needs.len() == if own_head(meta, a) { 5nat } else { 3nat });
    }
    lemma_meets_alike(a, b, needs);
}

/// The tensor `name` is the same in both checkpoints, or in neither.
pub open spec fn same_tensor<V>(
    a: Seq<TensorEntry>,
    a_rows: Contents<V>,
    b: Seq<TensorEntry>,
    b_rows: Contents<V>,
    name: Seq<char>,
) -> bool {
    lookup(a, name) == lookup(b, name) && a_rows(name) == b_rows(name)
}

/// Where `a` has one attention bias of a layer, `b` has it in three parts; where
/// it has not, the three are the same in both.
pub open spec fn biases_fused<V>(
    a: Seq<TensorEntry>,
    a_rows: Contents<V>,
    b: Seq<TensorEntry>,
    b_rows: Contents<V>,
    meta: ModelMetadata,
    p: Seq<char>,
) -> bool {
    let q = p + ".self_attn.q_proj.bias"@;
    let k = p + ".self_attn.k_proj.bias"@;
    let v = p + ".self_attn.v_proj.bias"@;
    let fused = p + ".self_attn.qkv_proj.bias"@;
    if lists(a, fused) {
        &&& lookup(a, fused) == Some(seq![fused_rows(meta)])
        &&& lookup(b, q) == Some(seq![meta.q_rows() as usize])
        &&& lookup(b, k) == Some(seq![meta.kv_rows() as usize])
        &&& lookup(b, v) == Some(seq![meta.kv_rows() as usize])
        &&& b_rows(q).len() == meta.q_rows()
        &&& b_rows(k).len() == meta.kv_rows()
        &&& b_rows(v).len() == meta.kv_rows()
        &&& a_rows(fused) == b_rows(q) + b_rows(k) + b_rows(v)
    } else {
        &&& same_tensor(a, a_rows, b, b_rows, q)
        &&& same_tensor(a, a_rows, b, b_rows, k)
        &&& same_tensor(a, a_rows, b, b_rows, v)
    }
}

/// Where `b` has three attention projections of a layer, of the configured
/// numbers of rows, `a` has their rows behind one another in one tensor.
pub open spec fn attention_fused<V>(
    a: Seq<TensorEntry>,
    a_rows: Contents<V>,
    b: Seq<TensorEntry>,
    b_rows: Contents<V>,
    meta: ModelMetadata,
    p: Seq<char>,
) -> bool {
    let q = p + ".self_attn.q_proj.weight"@;
    let k = p + ".self_attn.k_proj.weight"@;
    let v = p + ".self_attn.v_proj.weight"@;
    let fused = p + ".self_attn.qkv_proj.weight"@;
    let cols = lookup(a, fused)->0[1];
    &&& !lists(a, q)
    &&& lookup(a, fused) == Some(seq![fused_rows(meta), cols])
    &&& lookup(b, q) == Some(seq![meta.q_rows() as usize, cols])
    &&& lookup(b, k) == Some(seq![meta.kv_rows() as usize, cols])
    &&& lookup(b, v) == Some(seq![meta.kv_rows() as usize, cols])
    &&& b_rows(q).len() == meta.q_rows()
    &&& b_rows(k).len() == meta.kv_rows()
    &&& b_rows(v).len() == meta.kv_rows()
    &&& a_rows(fused) == b_rows(q) + b_rows(k) + b_rows(v)
    &&& biases_fused(a, a_rows, b, b_rows, meta, p)
}

/// Both store the attention projections of a layer alike.
pub open spec fn attention_alike<V>(
    a: Seq<TensorEntry>,
    a_rows: Contents<V>,
    b: Seq<TensorEntry>,
    b_rows: Contents<V>,
    p: Seq<char>,
) -> bool {
    &&& same_tensor(a, a_rows, b, b_rows, p + ".self_attn.q_proj.weight"@)
    &&& same_tensor(a, a_rows, b, b_rows, p + ".self_attn.k_proj.weight"@)
    &&& same_tensor(a, a_rows, b, b_rows, p + ".self_attn.v_proj.weight"@)
    &&& same_tensor(a, a_rows, b, b_rows, p + ".self_attn.qkv_proj.weight"@)
    &&& same_tensor(a, a_rows, b, b_rows, p + ".self_attn.q_proj.bias"@)
    &&& same_tensor(a, a_rows, b, b_rows, p + ".self_attn.k_proj.bias"@)
    &&& same_tensor(a, a_rows, b, b_rows, p + ".self_attn.v_proj.bias"@)
    &&& same_tensor(a, a_rows, b, b_rows, p + ".self_attn.qkv_proj.bias"@)
}

/// Where `b` has two projections into the feed-forward block of a layer, of the
/// configured number of rows, `a` has their rows behind one another in one
/// tensor.
pub open spec fn mlp_fused<V>(
    a: Seq<TensorEntry>,
    a_rows: Contents<V>,
    b: Seq<TensorEntry>,
    b_rows: Contents<V>,
    meta: ModelMetadata,
    p: Seq<char>,
) -> bool {
    let gate = p + ".mlp.gate_proj.weight"@;
    let up = p + ".mlp.up_proj.weight"@;
    let fused = p + ".mlp.gate_up_proj.weight"@;
    let cols = lookup(a, fused)->0[1];
    &&& !lists(a, gate)
    &&& lookup(a, fused) == Some(seq![(2 * meta.intermediate_size) as usize, cols])
    &&& lookup(b, gate) == Some(seq![meta.intermediate_size, cols])
    &&& lookup(b, up) == Some(seq![meta.intermediate_size, cols])
    &&& b_rows(gate).len() == meta.intermediate_size
    &&& b_rows(up).len() == meta.intermediate_size
    &&& a_rows(fused) == b_rows(gate) + b_rows(up)
}

/// Both store the projections into the feed-forward block of a layer alike.
pub open spec fn mlp_alike<V>(
    a: Seq<TensorEntry>,
    a_rows: Contents<V>,
    b: Seq<TensorEntry>,
    b_rows: Contents<V>,
    p: Seq<char>,
) -> bool {
    &&& same_tensor(a, a_rows, b, b_rows, p + ".mlp.gate_proj.weight"@)
    &&& same_tensor(a, a_rows, b, b_rows, p + ".mlp.up_proj.weight"@)
    &&& same_tensor(a, a_rows, b, b_rows, p + ".mlp.gate_up_proj.weight"@)
}

/// `a` fuses projections of the layer with prefix `p` that `b` splits.
pub open spec fn layer_fused<V>(
    a: Seq<TensorEntry>,
    a_rows: Contents<V>,
    b: Seq<TensorEntry>,
    b_rows: Contents<V>,
    meta: ModelMetadata,
    p: Seq<char>,
) -> bool {
    &&& attention_fused(a, a_rows, b, b_rows, meta, p) || attention_alike(a, a_rows, b, b_rows, p)
    &&& mlp_fused(a, a_rows, b, b_rows, meta, p) || mlp_alike(a, a_rows, b, b_rows, p)
}

/// `a` and `b` hold the same weights, but `a` fuses projections that `b` splits.
pub open spec fn checkpoint_fused<V>(
    a: Seq<TensorEntry>,
    a_rows: Contents<V>,
    b: Seq<TensorEntry>,
    b_rows: Contents<V>,
    meta: ModelMetadata,
    prefix: Seq<char>,
) -> bool {
    &&& forall|name: Seq<char>|
        !names_projection(name) ==> #[trigger] same_tensor(a, a_rows, b, b_rows, name)
    &&& forall|i: int|
        0 <= i < meta.num_hidden_layers ==> layer_fused(
            a,
            a_rows,
            b,
            b_rows,
            meta,
            #[trigger] layer_name(prefix, i),
        )
}

/// Both parts take the same rows.
pub open spec fn reads_part<V>(x: Part, x_rows: Contents<V>, y: Part, y_rows: Contents<V>) -> bool {
    part_rows(x, x_rows(x.tensor@)) == part_rows(y, y_rows(y.tensor@))
}

/// Both parts take the same rows, or there is neither.
pub open spec fn reads_part_if<V>(
    x: Option<Part>,
    x_rows: Contents<V>,
    y: Option<Part>,
    y_rows: Contents<V>,
) -> bool {
    match (x, y) {
        (Some(x), Some(y)) => reads_part(x, x_rows, y, y_rows),
        (None, None) => true,
        _ => false,
    }
}

/// Both are the same tensor with the same rows.
pub open spec fn reads_tensor<V>(
    x: String,
    x_rows: Contents<V>,
    y: String,
    y_rows: Contents<V>,
) -> bool {
    x@ == y@ && x_rows(x@) == y_rows(y@)
}

/// Both are the same tensor with the same rows, or there is neither.
pub open spec fn reads_tensor_if<V>(
    x: Option<String>,
    x_rows: Contents<V>,
    y: Option<String>,
    y_rows: Contents<V>,
) -> bool {
    match (x, y) {
        (Some(x), Some(y)) => reads_tensor(x, x_rows, y, y_rows),
        (None, None) => true,
        _ => false,
    }
}

/// Both layers read the same rows, each from its checkpoint.
pub open spec fn layer_reads_alike<V>(
    x: LlamaLayerPlan,
    x_rows: Contents<V>,
    y: LlamaLayerPlan,
    y_rows: Contents<V>,
) -> bool {
    &&& reads_part(x.q, x_rows, y.q, y_rows)
    &&& reads_part(x.k, x_rows, y.k, y_rows)
    &&& reads_part(x.v, x_rows, y.v, y_rows)
    &&& reads_tensor(x.o, x_rows, y.o, y_rows)
    &&& reads_part_if(x.q_bias, x_rows, y.q_bias, y_rows)
    &&& reads_part_if(x.k_bias, x_rows, y.k_bias, y_rows)
    &&& reads_part_if(x.v_bias, x_rows, y.v_bias, y_rows)
    &&& reads_tensor_if(x.o_bias, x_rows, y.o_bias, y_rows)
    &&& reads_tensor_if(x.q_norm, x_rows, y.q_norm, y_rows)
    &&& reads_tensor_if(x.k_norm, x_rows, y.k_norm, y_rows)
    &&& reads_part(x.gate, x_rows, y.gate, y_rows)
    &&& reads_part(x.up, x_rows, y.up, y_rows)
    &&& reads_tensor(x.down, x_rows, y.down, y_rows)
    &&& reads_tensor(x.input_norm, x_rows, y.input_norm, y_rows)
    &&& reads_tensor(x.pre_mlp_norm, x_rows, y.pre_mlp_norm, y_rows)
    &&& reads_tensor_if(x.attn_out_norm, x_rows, y.attn_out_norm, y_rows)
    &&& reads_tensor_if(x.mlp_out_norm, x_rows, y.mlp_out_norm, y_rows)
}

/// Both models go by the same knobs and read the same rows, each from its
/// checkpoint.
pub open spec fn plan_reads_alike<V>(
    x: LlamaPlan,
    x_rows: Contents<V>,
    y: LlamaPlan,
    y_rows: Contents<V>,
    meta: ModelMetadata,
) -> bool {
    &&& x.spec.resolves(meta)
    &&& y.spec.resolves(meta)
    &&& reads_tensor(x.embed, x_rows, y.embed, y_rows)
    &&& reads_tensor_if(x.lm_head, x_rows, y.lm_head, y_rows)
    &&& reads_tensor(x.final_norm, x_rows, y.final_norm, y_rows)
    &&& x.layers@.len() == y.layers@.len()
    &&& forall|i: int|
        0 <= i < x.layers@.len() ==> layer_reads_alike(
            #[trigger] x.layers@[i],
            x_rows,
            y.layers@[i],
            y_rows,
        )
}

/// A fused layer meets its needs exactly if the split one does.
proof fn lemma_fused_layer_meets<V>(
    a: Seq<TensorEntry>,
    a_rows: Contents<V>,
    b: Seq<TensorEntry>,
    b_rows: Contents<V>,
    meta: ModelMetadata,
    qk_norm: bool,
    sandwich: bool,
    p: Seq<char>,
)
    requires
        forall|name: Seq<char>|
            !names_projection(name) ==> #[trigger] same_tensor(a, a_rows, b, b_rows, name),
        layer_fused(a, a_rows, b, b_rows, meta, p),
    ensures
        meets_all(a, layer_needs(meta, qk_norm, sandwich, a, p)) == meets_all(
            b,
            layer_needs(meta, qk_norm, sandwich, b, p),
        ),
{
    lemma_layer_names(p);
    assert(same_tensor(a, a_rows, b, b_rows, p + ".self_attn.o_proj.weight"@));
    assert(same_tensor(a, a_rows, b, b_rows, p + ".self_attn.o_proj.bias"@));
    assert(same_tensor(a, a_rows, b, b_rows, p + ".self_attn.q_norm.weight"@));
    assert(same_tensor(a, a_rows, b, b_rows, p + ".self_attn.k_norm.weight"@));
    assert(same_tensor(a, a_rows, b, b_rows, p + ".mlp.down_proj.weight"@));
    assert(same_tensor(a, a_rows, b, b_rows, p + ".input_layernorm.weight"@));
    assert(same_tensor(a, a_rows, b, b_rows, pre_mlp_name(sandwich, p)));
    assert(same_tensor(a, a_rows, b, b_rows, p + ".post_attention_layernorm.weight"@));
    assert(same_tensor(a, a_rows, b, b_rows, p + ".post_feedforward_layernorm.weight"@));
    lemma_common_needs(a, b, qk_norm, sandwich, p);
    lemma_layer_meets(meta, qk_norm, sandwich, a, p);
    lemma_layer_meets(meta, qk_norm, sandwich, b, p);
    if attention_fused(a, a_rows, b, b_rows, meta, p) {
        lemma_fused_attention_meets(a, a_rows, b, b_rows, meta, p);
    } else {
        lemma_meets_alike(a, b, attention_needs(meta, a, p));
        lemma_meets_alike(a, b, attention_shapes(meta, a, p));
        lemma_meets_alike(a, b, bias_needs(a, p));
    }
    if mlp_fused(a, a_rows, b, b_rows, meta, p) {
        assert(meets_all(a, mlp_needs(meta, a, p)));
        assert(meets_all(b, mlp_needs(meta, b, p)));
    } else {
        lemma_meets_alike(a, b, mlp_needs(meta, a, p));
    }
}

/// Fused attention projections meet their needs exactly if the split ones do.
proof fn lemma_fused_attention_meets<V>(
    a: Seq<TensorEntry>,
    a_rows: Contents<V>,
    b: Seq<TensorEntry>,
    b_rows: Contents<V>,
    meta: ModelMetadata,
    p: Seq<char>,
)
    requires
        attention_fused(a, a_rows, b, b_rows, meta, p),
        lookup(a, p + ".self_attn.o_proj.bias"@) == lookup(b, p + ".self_attn.o_proj.bias"@),
    ensures
        meets_all(a, attention_needs(meta, a, p)),
        meets_all(b, attention_needs(meta, b, p)),
        meets_all(a, attention_shapes(meta, a, p)) == meets_all(b, attention_shapes(meta, b, p)),
        meets_all(a, bias_needs(a, p)) == meets_all(b, bias_needs(b, p)),
{
    let q = p + ".self_attn.q_proj.weight"@;
    let fused = p + ".self_attn.qkv_proj.weight"@;
    let cols = lookup(a, fused)->0[1];
    let q_rows = meta.q_rows() as usize;
    let kv_rows = meta.kv_rows() as usize;
    let sa = attention_shapes(meta, a, p);
    let sb = attention_shapes(meta, b, p);
    assert(sa.len() == 2 && sb.len() == 2);
    assert(meets(a, sa[0]) == (cols == meta.hidden_size));
    assert(meets(a, sa[1]) == (cols == meta.hidden_size));
    assert(seq![q_rows, cols][1] == cols && seq![q_rows, meta.hidden_size][1] == meta.hidden_size);
    assert(seq![kv_rows, cols][1] == cols && seq![kv_rows, meta.hidden_size][1]
        == meta.hidden_size);
    assert(meets(b, sb[0]) == (cols == meta.hidden_size));
    assert(meets(b, sb[1]) == (cols == meta.hidden_size));
    let ba = bias_needs(a, p);
    let bb = bias_needs(b, p);
    if lists(a, p + ".self_attn.qkv_proj.bias"@) {
        assert(ba.len() == 1 && bb.len() == 4);
        assert(meets(a, ba[0]) == meets(b, bb[3]));
        assert(meets(b, bb[0]) && meets(b, bb[1]) && meets(b, bb[2]));
    } else {
        assert(ba == bb);
        lemma_meets_alike(a, b, ba);
    }
}

/// The first layers of a fused checkpoint meet their needs exactly if those of
/// the split one do.
proof fn lemma_fused_layers_meet<V>(
    a: Seq<TensorEntry>,
    a_rows: Contents<V>,
    b: Seq<TensorEntry>,
    b_rows: Contents<V>,
    meta: ModelMetadata,
    prefix: Seq<char>,
    count: int,
)
    requires
        checkpoint_fused(a, a_rows, b, b_rows, meta, prefix),
        0 <= count <= meta.num_hidden_layers,
    ensures
        ({
            let qk_norm = norms_heads(meta.architecture@);
            let sandwich = is_gemma(meta.architecture@);
            meets_all(a, layers_needs(meta, qk_norm, sandwich, a, prefix, count)) == meets_all(
                b,
                layers_needs(meta, qk_norm, sandwich, b, prefix, count),
            )
        }),
    decreases count,
{
    let qk_norm = norms_heads(meta.architecture@);
    let sandwich = is_gemma(meta.architecture@);
    if count > 0 {
        let p = layer_name(prefix, count - 1);
        lemma_fused_layers_meet(a, a_rows, b, b_rows, meta, prefix, count - 1);
        lemma_fused_layer_meets(a, a_rows, b, b_rows, meta, qk_norm, sandwich, p);
        lemma_meets_both(
            a,
            layers_needs(meta, qk_norm, sandwich, a, prefix, count - 1),
            layer_needs(meta, qk_norm, sandwich, a, p),
        );
        lemma_meets_both(
            b,
            layers_needs(meta, qk_norm, sandwich, b, prefix, count - 1),
            layer_needs(meta, qk_norm, sandwich, b, p),
        );
    }
}

/// A fused layer reads the rows that the split one reads.
proof fn lemma_fused_layer_reads<V>(
    x: LlamaLayerPlan,
    a: Seq<TensorEntry>,
    a_rows: Contents<V>,
    y: LlamaLayerPlan,
    b: Seq<TensorEntry>,
    b_rows: Contents<V>,
    meta: ModelMetadata,
    qk_norm: bool,
    sandwich: bool,
    p: Seq<char>,
)
    requires
        meta.countable(),
        forall|name: Seq<char>|
            !names_projection(name) ==> #[trigger] same_tensor(a, a_rows, b, b_rows, name),
        layer_fused(a, a_rows, b, b_rows, meta, p),
        layer_planned(x, meta, qk_norm, sandwich, a, p),
        layer_planned(y, meta, qk_norm, sandwich, b, p),
    ensures
        layer_reads_alike(x, a_rows, y, b_rows),
{
    lemma_layer_names(p);
    assert(same_tensor(a, a_rows, b, b_rows, p + ".self_attn.o_proj.weight"@));
    assert(same_tensor(a, a_rows, b, b_rows, p + ".self_attn.o_proj.bias"@));
    assert(same_tensor(a, a_rows, b, b_rows, p + ".self_attn.q_norm.weight"@));
    assert(same_tensor(a, a_rows, b, b_rows, p + ".self_attn.k_norm.weight"@));
    assert(same_tensor(a, a_rows, b, b_rows, p + ".mlp.down_proj.weight"@));
    assert(same_tensor(a, a_rows, b, b_rows, p + ".input_layernorm.weight"@));
    assert(same_tensor(a, a_rows, b, b_rows, pre_mlp_name(sandwich, p)));
    assert(same_tensor(a, a_rows, b, b_rows, p + ".post_attention_layernorm.weight"@));
    assert(same_tensor(a, a_rows, b, b_rows, p + ".post_feedforward_layernorm.weight"@));
    if attention_fused(a, a_rows, b, b_rows, meta, p) {
        law_fused_attention_matches_split(
            x,
            meta,
            a,
            p,
            b_rows(p + ".self_attn.q_proj.weight"@),
            b_rows(p + ".self_attn.k_proj.weight"@),
            b_rows(p + ".self_attn.v_proj.weight"@),
        );
        if lists(a, p + ".self_attn.qkv_proj.bias"@) {
            law_fused_attention_matches_split(
                x,
                meta,
                a,
                p,
                b_rows(p + ".self_attn.q_proj.bias"@),
                b_rows(p + ".self_attn.k_proj.bias"@),
                b_rows(p + ".self_attn.v_proj.bias"@),
            );
        }
    }
    if mlp_fused(a, a_rows, b, b_rows, meta, p) {
        law_fused_mlp_matches_split(
            x,
            meta,
            qk_norm,
            sandwich,
            a,
            p,
            b_rows(p + ".mlp.gate_proj.weight"@),
            b_rows(p + ".mlp.up_proj.weight"@),
        );
    }
}

/// Whether a checkpoint fuses projections or splits them does not show. Of two
/// with the same weights, one loads exactly if the other does, and both models
/// then read the same rows for everything. The names of both show the same
/// prefix.
pub proof fn law_fused_checkpoint_matches_split<V>(
    ra: Result<LlamaPlan>,
    a: Seq<TensorEntry>,
    a_rows: Contents<V>,
    rb: Result<LlamaPlan>,
    b: Seq<TensorEntry>,
    b_rows: Contents<V>,
    meta: ModelMetadata,
    prefix: Seq<char>,
)
    requires
        meta.countable(),
        checkpoint_fused(a, a_rows, b, b_rows, meta, prefix),
        llama_outcome(ra, meta, a, prefix),
        llama_outcome(rb, meta, b, prefix),
    ensures
        detected_prefix(a) == detected_prefix(b),
        ra is Ok <==> rb is Ok,
        ra matches Ok(x) ==> rb matches Ok(y) ==> plan_reads_alike(x, a_rows, y, b_rows, meta),
{
    let qk_norm = norms_heads(meta.architecture@);
    let sandwich = is_gemma(meta.architecture@);
    let count = meta.num_hidden_layers as int;
    lemma_head_names(prefix);
    assert(same_tensor(a, a_rows, b, b_rows, dotted(prefix) + "embed_tokens.weight"@));
    assert(same_tensor(a, a_rows, b, b_rows, "lm_head.weight"@));
    assert(same_tensor(a, a_rows, b, b_rows, dotted(prefix) + "norm.weight"@));
    assert(same_tensor(a, a_rows, b, b_rows, "model.embed_tokens.weight"@));
    assert(same_tensor(a, a_rows, b, b_rows, "model.embed_tokens"@));
    lemma_head_meets(a, b, meta, prefix);
    lemma_fused_layers_meet(a, a_rows, b, b_rows, meta, prefix, count);
    lemma_meets_both(
        a,
        head_needs(meta, a, prefix),
        layers_needs(meta, qk_norm, sandwich, a, prefix, count),
    );
    lemma_meets_both(
        b,
        head_needs(meta, b, prefix),
        layers_needs(meta, qk_norm, sandwich, b, prefix, count),
    );
    if ra is Ok && rb is Ok {
        let x = ra->Ok_0;
        let y = rb->Ok_0;
        assert forall|i: int| 0 <= i < x.layers@.len() implies layer_reads_alike(
            #[trigger] x.layers@[i],
            a_rows,
            y.layers@[i],
            b_rows,
        ) by {
            lemma_fused_layer_reads(
                x.layers@[i],
                a,
                a_rows,
                y.layers@[i],
                b,
                b_rows,
                meta,
                qk_norm,
                sandwich,
                layer_name(prefix, i),
            );
        }
    }
}

/// The biases that a checkpoint lists for a layer are vectors, and a fused one
/// has a value for each row.
pub open spec fn biases_fit(
    entries: Seq<TensorEntry>,
    meta: ModelMetadata,
    p: Seq<char>,
) -> bool {
    &&& lookup(entries, p + ".self_attn.q_proj.bias"@) matches Some(shape) ==> shape.len() == 1
    &&& lookup(entries, p + ".self_attn.k_proj.bias"@) matches Some(shape) ==> shape.len() == 1
    &&& lookup(entries, p + ".self_attn.v_proj.bias"@) matches Some(shape) ==> shape.len() == 1
    &&& lookup(entries, p + ".self_attn.o_proj.bias"@) matches Some(shape) ==> shape.len() == 1
    &&& lookup(entries, p + ".self_attn.qkv_proj.bias"@) matches Some(shape) ==> shape.len() == 1
        && shape[0] == fused_rows(meta)
}

/// `a` and `b` list the same tensors but for attention biases, and those that
/// either lists fit.
pub open spec fn differ_in_biases(
    a: Seq<TensorEntry>,
    b: Seq<TensorEntry>,
    meta: ModelMetadata,
    prefix: Seq<char>,
) -> bool {
    &&& forall|name: Seq<char>| !names_bias(name) ==> #[trigger] lookup(a, name) == lookup(b, name)
    &&& forall|i: int|
        0 <= i < meta.num_hidden_layers ==> biases_fit(a, meta, #[trigger] layer_name(prefix, i))
            && biases_fit(b, meta, layer_name(prefix, i))
}

/// Both parts are the same rows of the same tensor.
pub open spec fn same_part(x: Part, y: Part) -> bool {
    x.tensor@ == y.tensor@ && x.rows == y.rows
}

/// Both are the same name, or there is neither.
pub open spec fn same_name_if(x: Option<String>, y: Option<String>) -> bool {
    match (x, y) {
        (Some(x), Some(y)) => x@ == y@,
        (None, None) => true,
        _ => false,
    }
}

/// Both layers read the same parts of the same tensors, but for the biases.
pub open spec fn same_but_biases(x: LlamaLayerPlan, y: LlamaLayerPlan) -> bool {
    &&& same_part(x.q, y.q)
    &&& same_part(x.k, y.k)
    &&& same_part(x.v, y.v)
    &&& x.o@ == y.o@
    &&& same_name_if(x.q_norm, y.q_norm)
    &&& same_name_if(x.k_norm, y.k_norm)
    &&& same_part(x.gate, y.gate)
    &&& same_part(x.up, y.up)
    &&& x.down@ == y.down@
    &&& x.input_norm@ == y.input_norm@
    &&& x.pre_mlp_norm@ == y.pre_mlp_norm@
    &&& same_name_if(x.attn_out_norm, y.attn_out_norm)
    &&& same_name_if(x.mlp_out_norm, y.mlp_out_norm)
}

/// A layer takes exactly the biases that its checkpoint lists: the rows of the
/// fused one where the projections are fused and it is there, else each by its
/// own name.
pub open spec fn takes_listed_biases(
    layer: LlamaLayerPlan,
    meta: ModelMetadata,
    entries: Seq<TensorEntry>,
    p: Seq<char>,
) -> bool {
    let q = meta.q_rows() as usize;
    let kv = meta.kv_rows() as usize;
    let fused = p + ".self_attn.qkv_proj.bias"@;
    &&& if has_fused_bias(entries, p) {
        &&& layer.q_bias matches Some(part) && is_part(part, fused, Some((0usize, q)))
        &&& layer.k_bias matches Some(part) && is_part(part, fused, Some((q, kv)))
        &&& layer.v_bias matches Some(part) && is_part(
            part,
            fused,
            Some(((meta.q_rows() + meta.kv_rows()) as usize, kv)),
        )
    } else {
        &&& is_whole_if(
            layer.q_bias,
            lists(entries, p + ".self_attn.q_proj.bias"@),
            p + ".self_attn.q_proj.bias"@,
        )
        &&& is_whole_if(
            layer.k_bias,
            lists(entries, p + ".self_attn.k_proj.bias"@),
            p + ".self_attn.k_proj.bias"@,
        )
        &&& is_whole_if(
            layer.v_bias,
            lists(entries, p + ".self_attn.v_proj.bias"@),
            p + ".self_attn.v_proj.bias"@,
        )
    }
    &&& is_name_if(
        layer.o_bias,
        lists(entries, p + ".self_attn.o_proj.bias"@),
        p + ".self_attn.o_proj.bias"@,
    )
}

/// Biases that fit meet their needs.
proof fn lemma_fitting_biases_meet(
    entries: Seq<TensorEntry>,
    meta: ModelMetadata,
    p: Seq<char>,
)
    requires
        biases_fit(entries, meta, p),
    ensures
        meets_all(entries, bias_needs(entries, p)),
        meets_all(entries, attention_needs(meta, entries, p)) == if lists(
            entries,
            p + ".self_attn.q_proj.weight"@,
        ) {
            &&& meets(entries, need(p + ".self_attn.q_proj.weight"@, 2))
            &&& meets(entries, need(p + ".self_attn.k_proj.weight"@, 2))
            &&& meets(entries, need(p + ".self_attn.v_proj.weight"@, 2))
        } else {
            &&& meets(entries, need(p + ".self_attn.qkv_proj.weight"@, 2))
            &&& meets(
                entries,
                Need::Rows { name: p + ".self_attn.qkv_proj.weight"@, rows: fused_rows(meta) },
            )
        },
{
    let needs = attention_needs(meta, entries, p);
    if lists(entries, p + ".self_attn.q_proj.weight"@) {
        assert(needs.len() == 3);
        assert(meets_all(entries, needs) == (meets(entries, needs[0]) && meets(entries, needs[1])
            && meets(entries, needs[2])));
    } else {
        assert(needs.len() == 4);
        assert(meets(entries, needs[2]) && meets(entries, needs[3]));
        assert(meets_all(entries, needs) == (meets(entries, needs[0]) && meets(entries, needs[1])));
    }
}

/// A layer with other biases meets its needs alike.
proof fn lemma_bias_layer_meets(
    a: Seq<TensorEntry>,
    b: Seq<TensorEntry>,
    meta: ModelMetadata,
    qk_norm: bool,
    sandwich: bool,
    p: Seq<char>,
)
    requires
        forall|name: Seq<char>| !names_bias(name) ==> #[trigger] lookup(a, name) == lookup(b, name),
        biases_fit(a, meta, p),
        biases_fit(b, meta, p),
    ensures
        meets_all(a, layer_needs(meta, qk_norm, sandwich, a, p)) == meets_all(
            b,
            layer_needs(meta, qk_norm, sandwich, b, p),
        ),
{
    lemma_layer_names(p);
    lemma_weights_are_no_biases(p);
    lemma_common_needs(a, b, qk_norm, sandwich, p);
    lemma_layer_meets(meta, qk_norm, sandwich, a, p);
    lemma_layer_meets(meta, qk_norm, sandwich, b, p);
    lemma_fitting_biases_meet(a, meta, p);
    lemma_fitting_biases_meet(b, meta, p);
    lemma_meets_alike(a, b, attention_shapes(meta, a, p));
    lemma_meets_alike(a, b, mlp_needs(meta, a, p));
}

/// The first layers with other biases meet their needs alike.
proof fn lemma_bias_layers_meet(
    a: Seq<TensorEntry>,
    b: Seq<TensorEntry>,
    meta: ModelMetadata,
    prefix: Seq<char>,
    count: int,
)
    requires
        differ_in_biases(a, b, meta, prefix),
        0 <= count <= meta.num_hidden_layers,
    ensures
        ({
            let qk_norm = norms_heads(meta.architecture@);
            let sandwich = is_gemma(meta.architecture@);
            meets_all(a, layers_needs(meta, qk_norm, sandwich, a, prefix, count)) == meets_all(
                b,
                layers_needs(meta, qk_norm, sandwich, b, prefix, count),
            )
        }),
    decreases count,
{
    let qk_norm = norms_heads(meta.architecture@);
    let sandwich = is_gemma(meta.architecture@);
    if count > 0 {
        let p = layer_name(prefix, count - 1);
        lemma_bias_layers_meet(a, b, meta, prefix, count - 1);
        lemma_bias_layer_meets(a, b, meta, qk_norm, sandwich, p);
        lemma_meets_both(
            a,
            layers_needs(meta, qk_norm, sandwich, a, prefix, count - 1),
            layer_needs(meta, qk_norm, sandwich, a, p),
        );
        lemma_meets_both(
            b,
            layers_needs(meta, qk_norm, sandwich, b, prefix, count - 1),
            layer_needs(meta, qk_norm, sandwich, b, p),
        );
    }
}

/// Biases are taken by their presence. Of two checkpoints that list the same
/// tensors but for biases that fit, one loads exactly if the other does: an
/// absent bias is no error. Both models then read the same parts of the same
/// tensors but for the biases, and each layer takes exactly those that its
/// checkpoint lists. The names of both show the same prefix.
pub proof fn law_biases_load_by_presence(
    ra: Result<LlamaPlan>,
    a: Seq<TensorEntry>,
    rb: Result<LlamaPlan>,
    b: Seq<TensorEntry>,
    meta: ModelMetadata,
    prefix: Seq<char>,
)
    requires
        differ_in_biases(a, b, meta, prefix),
        llama_outcome(ra, meta, a, prefix),
        llama_outcome(rb, meta, b, prefix),
    ensures
        detected_prefix(a) == detected_prefix(b),
        ra is Ok <==> rb is Ok,
        ra matches Ok(x) ==> rb matches Ok(y) ==> {
            &&& x.spec.resolves(meta)
            &&& y.spec.resolves(meta)
            &&& x.embed@ == y.embed@
            &&& same_name_if(x.lm_head, y.lm_head)
            &&& x.final_norm@ == y.final_norm@
            &&& x.layers@.len() == y.layers@.len()
            &&& forall|i: int|
                0 <= i < x.layers@.len() ==> {
                    &&& same_but_biases(#[trigger] x.layers@[i], y.layers@[i])
                    &&& takes_listed_biases(x.layers@[i], meta, a, layer_name(prefix, i))
                    &&& takes_listed_biases(y.layers@[i], meta, b, layer_name(prefix, i))
                }
        },
{
    let qk_norm = norms_heads(meta.architecture@);
    let sandwich = is_gemma(meta.architecture@);
    let count = meta.num_hidden_layers as int;
    lemma_head_names(prefix);
    lemma_head_meets(a, b, meta, prefix);
    lemma_bias_layers_meet(a, b, meta, prefix, count);
    lemma_meets_both(
        a,
        head_needs(meta, a, prefix),
        layers_needs(meta, qk_norm, sandwich, a, prefix, count),
    );
    lemma_meets_both(
        b,
        head_needs(meta, b, prefix),
        layers_needs(meta, qk_norm, sandwich, b, prefix, count),
    );
    if ra is Ok && rb is Ok {
        let x = ra->Ok_0;
        let y = rb->Ok_0;
        assert forall|i: int| 0 <= i < x.layers@.len() implies {
            &&& same_but_biases(#[trigger] x.layers@[i], y.layers@[i])
            &&& takes_listed_biases(x.layers@[i], meta, a, layer_name(prefix, i))
            &&& takes_listed_biases(y.layers@[i], meta, b, layer_name(prefix, i))
        } by {
            let p = layer_name(prefix, i);
            lemma_layer_names(p);
            lemma_weights_are_no_biases(p);
            assert(layer_planned(x.layers@[i], meta, qk_norm, sandwich, a, p));
            assert(layer_planned(y.layers@[i], meta, qk_norm, sandwich, b, p));
        }
    }
}

/// The first need that is not met is the error.
proof fn lemma_blamed(
    entries: Seq<TensorEntry>,
    before: Seq<Need>,
    need: Need,
    after: Seq<Need>,
    r: Result<LlamaPlan>,
)
    requires
        settles(entries, before + seq![need] + after, r),
        !meets(entries, need),
    ensures
        r is Err,
        meets_all(entries, before) ==> unmet(entries, need, r->Err_0),
{
    let all = before + seq![need] + after;
    let at = before.len() as int;
    assert(all[at] == need);
    assert(!meets_all(entries, all));
    if meets_all(entries, before) {
        let error = r->Err_0;
        let i = choose|i: int|
            0 <= i < all.len() && meets_all(entries, all.take(i)) && !meets(
                entries,
                #[trigger] all[i],
            ) && unmet(entries, all[i], error);
        if i < at {
            assert(all[i] == before[i]);
        }
        if i > at {
            assert(all.take(i)[at] == need);
        }
    }
}

/// The needs of the layers from `from` on.
spec fn later_needs(
    meta: ModelMetadata,
    entries: Seq<TensorEntry>,
    prefix: Seq<char>,
    from: int,
    count: int,
) -> Seq<Need>
    decreases count - from,
{
    if count <= from {
        Seq::empty()
    } else {
        later_needs(meta, entries, prefix, from, count - 1) + layer_needs(
            meta,
            norms_heads(meta.architecture@),
            is_gemma(meta.architecture@),
            entries,
            layer_name(prefix, count - 1),
        )
    }
}

/// The needs of the layers are those of the first ones and those of the later.
proof fn lemma_layers_split(
    meta: ModelMetadata,
    entries: Seq<TensorEntry>,
    prefix: Seq<char>,
    from: int,
    count: int,
)
    requires
        0 <= from <= count,
    ensures
        ({
            let qk_norm = norms_heads(meta.architecture@);
            let sandwich = is_gemma(meta.architecture@);
            layers_needs(meta, qk_norm, sandwich, entries, prefix, count) == layers_needs(
                meta,
                qk_norm,
                sandwich,
                entries,
                prefix,
                from,
            ) + later_needs(meta, entries, prefix, from, count)
        }),
    decreases count,
{
    let qk_norm = norms_heads(meta.architecture@);
    let sandwich = is_gemma(meta.architecture@);
    let first = layers_needs(meta, qk_norm, sandwich, entries, prefix, from);
    if count > from {
        lemma_layers_split(meta, entries, prefix, from, count - 1);
    }
    assert(layers_needs(meta, qk_norm, sandwich, entries, prefix, count) =~= first + later_needs(
        meta,
        entries,
        prefix,
        from,
        count,
    ));
}

/// The needs of a model up to layer `i`, without it.
pub open spec fn needs_before_layer(
    meta: ModelMetadata,
    entries: Seq<TensorEntry>,
    prefix: Seq<char>,
    i: int,
) -> Seq<Need> {
    head_needs(meta, entries, prefix) + layers_needs(
        meta,
        norms_heads(meta.architecture@),
        is_gemma(meta.architecture@),
        entries,
        prefix,
        i,
    )
}

/// The needs of a model around those of layer `i`.
proof fn lemma_needs_around_layer(
    meta: ModelMetadata,
    entries: Seq<TensorEntry>,
    prefix: Seq<char>,
    i: int,
)
    requires
        0 <= i < meta.num_hidden_layers,
    ensures
        llama_needs(meta, entries, prefix) == needs_before_layer(meta, entries, prefix, i)
            + layer_needs(
            meta,
            norms_heads(meta.architecture@),
            is_gemma(meta.architecture@),
            entries,
            layer_name(prefix, i),
        ) + later_needs(meta, entries, prefix, i + 1, meta.num_hidden_layers as int),
{
    lemma_layers_split(meta, entries, prefix, i + 1, meta.num_hidden_layers as int);
    assert(llama_needs(meta, entries, prefix) =~= needs_before_layer(meta, entries, prefix, i)
        + layer_needs(
        meta,
        norms_heads(meta.architecture@),
        is_gemma(meta.architecture@),
        entries,
        layer_name(prefix, i),
    ) + later_needs(meta, entries, prefix, i + 1, meta.num_hidden_layers as int));
}

/// The needs of a layer in their surroundings, regrouped around those of the
/// attention projections and of the feed-forward block.
proof fn lemma_regrouped(
    h: Seq<Need>,
    a: Seq<Need>,
    o: Seq<Need>,
    s: Seq<Need>,
    m: Seq<Need>,
    b: Seq<Need>,
    q: Seq<Need>,
    t: Seq<Need>,
    w: Seq<Need>,
    l: Seq<Need>,
)
    ensures
        h + (a + o + s + m + b + q + t + w) + l == h + a + (o + s + m + b + q + t + w + l),
        h + (a + o + s + m + b + q + t + w) + l == (h + a + o + s) + m + (b + q + t + w + l),
{
    assert(h + (a + o + s + m + b + q + t + w) + l =~= h + a + (o + s + m + b + q + t + w + l));
    assert(h + (a + o + s + m + b + q + t + w) + l =~= (h + a + o + s) + m + (b + q + t + w + l));
}

/// Where the first of some needs is met and the second is not, the second is the
/// error, if all before them are met.
proof fn lemma_second_blamed(
    entries: Seq<TensorEntry>,
    before: Seq<Need>,
    needs: Seq<Need>,
    after: Seq<Need>,
    r: Result<LlamaPlan>,
)
    requires
        settles(entries, before + needs + after, r),
        needs.len() >= 2,
        meets(entries, needs[0]),
        !meets(entries, needs[1]),
    ensures
        r is Err,
        meets_all(entries, before) ==> unmet(entries, needs[1], r->Err_0),
{
    let one = seq![needs[0]];
    assert(before + needs + after =~= (before + one) + seq![needs[1]] + (needs.skip(2) + after));
    lemma_blamed(entries, before + one, needs[1], needs.skip(2) + after, r);
    assert(meets_all(entries, one));
    lemma_meets_both(entries, before, one);
}

/// A fused attention projection whose rows are not those of its three parts is
/// refused, by its shape where all that is read before it is in order.
pub proof fn law_fused_attention_rows_add_up(
    r: Result<LlamaPlan>,
    meta: ModelMetadata,
    entries: Seq<TensorEntry>,
    prefix: Seq<char>,
    i: int,
    shape: Seq<usize>,
)
    requires
        llama_outcome(r, meta, entries, prefix),
        0 <= i < meta.num_hidden_layers,
        !lists(entries, layer_name(prefix, i) + ".self_attn.q_proj.weight"@),
        lookup(entries, layer_name(prefix, i) + ".self_attn.qkv_proj.weight"@) == Some(shape),
        shape.len() == 2,
        shape[0] != fused_rows(meta),
    ensures
        r is Err,
        meets_all(entries, needs_before_layer(meta, entries, prefix, i)) ==> is_bad_shape(
            r->Err_0,
            layer_name(prefix, i) + ".self_attn.qkv_proj.weight"@,
            with_rows(shape, fused_rows(meta)),
            shape,
        ),
{
    let p = layer_name(prefix, i);
    let first = needs_before_layer(meta, entries, prefix, i);
    let needs = attention_needs(meta, entries, p);
    let o = seq![need(p + ".self_attn.o_proj.weight"@, 2)];
    let shapes = attention_shapes(meta, entries, p);
    let mlp = mlp_needs(meta, entries, p);
    let biases = bias_needs(entries, p);
    let norms = qk_norm_needs(norms_heads(meta.architecture@), p);
    let tail = tail_needs(is_gemma(meta.architecture@), p);
    let outer = sandwich_needs(is_gemma(meta.architecture@), p);
    let later = later_needs(meta, entries, prefix, i + 1, meta.num_hidden_layers as int);
    lemma_needs_around_layer(meta, entries, prefix, i);
    lemma_regrouped(first, needs, o, shapes, mlp, biases, norms, tail, outer, later);
    let after = o + shapes + mlp + biases + norms + tail + outer + later;
    lemma_second_blamed(entries, first, needs, after, r);
}

/// A fused feed-forward projection whose rows are not those of its two parts is
/// refused, by its shape where all that is read before it is in order.
pub proof fn law_fused_mlp_rows_add_up(
    r: Result<LlamaPlan>,
    meta: ModelMetadata,
    entries: Seq<TensorEntry>,
    prefix: Seq<char>,
    i: int,
    shape: Seq<usize>,
)
    requires
        llama_outcome(r, meta, entries, prefix),
        0 <= i < meta.num_hidden_layers,
        !lists(entries, layer_name(prefix, i) + ".mlp.gate_proj.weight"@),
        lookup(entries, layer_name(prefix, i) + ".mlp.gate_up_proj.weight"@) == Some(shape),
        shape.len() == 2,
        shape[0] != (2 * meta.intermediate_size) as usize,
    ensures
        r is Err,
        meets_all(
            entries,
            needs_before_layer(meta, entries, prefix, i) + attention_needs(
                meta,
                entries,
                layer_name(prefix, i),
            ) + seq![need(layer_name(prefix, i) + ".self_attn.o_proj.weight"@, 2)]
                + attention_shapes(meta, entries, layer_name(prefix, i)),
        ) ==> is_bad_shape(
            r->Err_0,
            layer_name(prefix, i) + ".mlp.gate_up_proj.weight"@,
            with_rows(shape, (2 * meta.intermediate_size) as usize),
            shape,
        ),
{
    let p = layer_name(prefix, i);
    let first = needs_before_layer(meta, entries, prefix, i);
    let needs = attention_needs(meta, entries, p);
    let o = seq![need(p + ".self_attn.o_proj.weight"@, 2)];
    let shapes = attention_shapes(meta, entries, p);
    let mlp = mlp_needs(meta, entries, p);
    let biases = bias_needs(entries, p);
    let norms = qk_norm_needs(norms_heads(meta.architecture@), p);
    let tail = tail_needs(is_gemma(meta.architecture@), p);
    let outer = sandwich_needs(is_gemma(meta.architecture@), p);
    let later = later_needs(meta, entries, prefix, i + 1, meta.num_hidden_layers as int);
    lemma_needs_around_layer(meta, entries, prefix, i);
    lemma_regrouped(first, needs, o, shapes, mlp, biases, norms, tail, outer, later);
    let before = first + needs + o + shapes;
    let after = biases + norms + tail + outer + later;
    lemma_second_blamed(entries, before, mlp, after, r);
}

} // verus!
